//! Turning script text into structure: lines into expression lists, and
//! single expressions into calls, assignments, scopes and operations.
pub mod call_parser;
pub mod variable_parser;
pub mod scope_parser;
pub mod expression_parser;
pub mod operation_parser;

use vstd::prelude::*;
use crate::error::{ErrorManager, ErrorV, errors_view};
use crate::script_type::{ScriptType, script_type_of};
use crate::text::{
    chars_of, decimal, decimal_string, is_white_space, lemma_split_all_len, lines_of,
    remove_all, remove_all_of, slice_vec, split_all, split_strings,
    trim_end, trim_end_index, push_char};
use crate::types::{ExpressionListV, Parser};
use crate::utility::{ExpressionType, strings_view};
use crate::parser::expression_parser::{parse_expressions, parse_expressions_spec};

verus! {

/// A line with its white space removed, except inside string and char
/// literals (a `"` or `'` opens or closes a literal).
pub open spec fn strip_scan(line: Seq<char>, i: nat, in_literal: bool) -> Seq<char>
    decreases line.len() - i,
{
    if i >= line.len() {
        seq![]
    } else {
        let c = line[i as int];
        let kept = if !is_white_space(c) || in_literal {
            seq![c]
        } else {
            seq![]
        };
        let next = if c == '"' || c == '\'' {
            !in_literal
        } else {
            in_literal
        };
        kept + strip_scan(line, i + 1, next)
    }
}

/// Line `k` (counted from 0) as the parser reads it: `N)` and the line
/// without white space outside literals.
pub open spec fn numbered_line(k: nat, line: Seq<char>) -> Seq<char> {
    decimal(k + 1) + ")"@ + strip_scan(line, 0, false)
}

/// What `handle_content_replace` makes of a text.
pub open spec fn content_lines(s: Seq<char>) -> Seq<Seq<char>> {
    Seq::new(lines_of(s).len(), |k: int| numbered_line(k as nat, lines_of(s)[k]))
}

pub open spec fn line_continuation() -> Seq<char> {
    seq!['\\', '\r', '\n']
}

/// The script type's name: the first line after its `1)`, without trailing `;`.
pub open spec fn first_line_of(lines: Seq<Seq<char>>) -> Seq<char> {
    trim_end(lines[0].subrange(2, lines[0].len() as int), ";"@)
}

/// What `parse_source(path, contents)` returns (errors reported aside).
pub open spec fn parse_source_spec(path: Seq<char>, contents: Seq<char>) -> Result<(ScriptType, ExpressionListV, Seq<ErrorV>), Seq<char>> {
    if contents.len() == 0 {
        Err("Contents of "@ + path + " were empty."@)
    } else {
        let lines = content_lines(remove_all(contents, line_continuation()));
        let first = first_line_of(lines);
        let t = script_type_of(first);
        if t == ScriptType::Unrecognized {
            Err("Unexpected script type: "@ + first)
        } else {
            let (v, errs) = parse_expressions_spec(lines, 0, ExpressionType::Empty, false);
            Ok((t, v, errs))
        }
    }
}

fn is_white_space_of(c: char) -> (r: bool)
    ensures
        r == is_white_space(c),
{
    let u = c as u32;
    (0x9 <= u && u <= 0xD) || u == 0x20 || u == 0x85 || u == 0xA0 || u == 0x1680 || (0x2000 <= u
        && u <= 0x200A) || u == 0x2028 || u == 0x2029 || u == 0x202F || u == 0x205F || u == 0x3000
}

fn strip_line(line: &Vec<char>, out: &mut String)
    ensures
        final(out)@ == old(out)@ + strip_scan(line@, 0, false),
{
    let ghost o0 = out@;
    let mut in_literal = false;
    let mut i: usize = 0;
    while i < line.len()
        invariant
            i <= line.len(),
            o0 == old(out)@,
            out@ + strip_scan(line@, i as nat, in_literal) == o0 + strip_scan(line@, 0, false),
        decreases line.len() - i,
    {
        let c = crate::text::char_at(line, i);
        let ghost before = out@;
        let ghost lit0 = in_literal;
        if !is_white_space_of(c) || in_literal {
            push_char(out, c);
        }
        if c == '"' || c == '\'' {
            in_literal = !in_literal;
        }
        proof {
            let kept = if !is_white_space(c) || lit0 { seq![c] } else { seq![] };
            assert(out@ == before + kept);
            assert(strip_scan(line@, i as nat, lit0) == kept + strip_scan(line@, (i + 1) as nat, in_literal));
            assert(out@ + strip_scan(line@, (i + 1) as nat, in_literal) =~= before + strip_scan(line@, i as nat, lit0));
        }
        i = i + 1;
    }
    assert(out@ + Seq::<char>::empty() =~= out@);
}

/// `handle_content_replace` over characters.
pub fn content_lines_of(v: &Vec<char>) -> (r: Vec<String>)
    requires
        v.len() + 1 <= usize::MAX,
    ensures
        strings_view(r@) == content_lines(v@),
        r.len() <= v.len() + 1,
{
    let pieces = split_strings(v, '\n');
    let ghost ps = split_all(v@, '\n');
    proof {
        crate::parser::variable_parser::lemma_split_all_nonempty(v@, '\n');
        lemma_split_all_len(v@, '\n');
        assert(strings_view(pieces@) == ps);
        assert(ps.last() == pieces@[pieces@.len() - 1]@);
    }
    let np = pieces.len();
    let count = if pieces[np - 1].as_str().is_empty() {
        np - 1
    } else {
        np
    };
    let ghost lines = lines_of(v@);
    assert(lines.len() == count);
    let mut r: Vec<String> = Vec::new();
    let mut k: usize = 0;
    while k < count
        invariant
            k <= count,
            count <= np,
            np == pieces.len(),
            np <= v.len() + 1,
            v.len() + 1 <= usize::MAX,
            lines == lines_of(v@),
            lines.len() == count,
            strings_view(pieces@) == split_all(v@, '\n'),
            strings_view(r@) == content_lines(v@).subrange(0, k as int),
        decreases count - k,
    {
        let line = chars_of(pieces[k].as_str());
        let n = line.len();
        let stripped = if n > 0 && line[n - 1] == '\r' {
            slice_vec(&line, 0, n - 1)
        } else {
            slice_vec(&line, 0, n)
        };
        proof {
            assert(strings_view(pieces@)[k as int] == pieces@[k as int]@);
            assert(line@.drop_last() =~= line@.subrange(0, n - 1));
            assert(line@ =~= line@.subrange(0, n as int));
            assert(stripped@ == lines[k as int]);
        }
        let mut out = decimal_string(k + 1);
        out.append(")");
        strip_line(&stripped, &mut out);
        let ghost r0 = strings_view(r@);
        r.push(out);
        proof {
            assert(strings_view(r@) =~= r0.push(out@));
            assert(content_lines(v@)[k as int] == numbered_line(k as nat, lines[k as int]));
            assert(content_lines(v@).subrange(0, k + 1) =~= content_lines(v@).subrange(0, k as int).push(
                content_lines(v@)[k as int],
            ));
        }
        k = k + 1;
    }
    assert(content_lines(v@).subrange(0, count as int) =~= content_lines(v@));
    r
}

/// Removes white space outside literals and numbers the lines: line `N`
/// (counted from 1) becomes `N)` followed by its stripped text.
pub fn handle_content_replace(string: &str) -> (r: Vec<String>)
    requires
        string@.len() + 1 <= usize::MAX,
    ensures
        strings_view(r@) == content_lines(string@),
{
    let v = chars_of(string);
    content_lines_of(&v)
}

impl Parser {
    /// Parses the text of a script file whose path is `file_path`.
    ///
    /// Line continuations (a `\` before a line break) are joined first; the
    /// first line must name the script type; the lines are then parsed as the
    /// script's global expressions, reporting errors to `error_manager`.
    pub fn parse_source(file_path: &str, contents: &str, error_manager: &mut ErrorManager) -> (r: Result<Parser, String>)
        requires
            contents@.len() + 2 <= usize::MAX,
            contents@.len() > 0 ==> content_lines(remove_all(contents@, line_continuation())).len() > 0,
        ensures
            match (r, parse_source_spec(file_path@, contents@)) {
                (Ok(p), Ok((t, v, errs))) => p.script_type == t && p.global_expressions@ == v
                    && errors_view(final(error_manager).errors@) == errors_view(old(error_manager).errors@) + errs,
                (Err(e), Err(m)) => e@ == m && errors_view(final(error_manager).errors@) == errors_view(old(error_manager).errors@),
                _ => false,
            },
    {
        let v = chars_of(contents);
        if v.len() == 0 {
            let mut e = String::from_str("Contents of ");
            e.append(file_path);
            e.append(" were empty.");
            return Err(e);
        }
        let mut cont: Vec<char> = Vec::new();
        cont.push('\\');
        cont.push('\r');
        cont.push('\n');
        assert(cont@ =~= line_continuation());
        let joined = remove_all_of(&v, &cont);
        let lines = content_lines_of(&joined);
        proof {
            assert(strings_view(lines@)[0] == lines@[0]@);
            reveal_with_fuel(decimal, 2);
            assert(decimal(1) =~= seq!['1']);
            reveal_strlit(")");
            assert(content_lines(joined@).len() > 0);
            assert(content_lines(joined@)[0] == numbered_line(0, lines_of(joined@)[0]));
            assert(lines@[0]@.len() >= 2);
        }
        let first_chars = chars_of(lines[0].as_str());
        let rest = slice_vec(&first_chars, 2, first_chars.len());
        let mut semi: Vec<char> = Vec::new();
        semi.push(';');
        proof {
            reveal_strlit(";");
            assert(semi@ =~= ";"@);
        }
        let e = trim_end_index(&rest, &semi);
        let first = crate::text::string_of(&rest, 0, e);
        let t = ScriptType::from_string(first.as_str());
        if t == ScriptType::Unrecognized {
            let mut msg = String::from_str("Unexpected script type: ");
            msg.append(first.as_str());
            return Err(msg);
        }
        let global_expressions = parse_expressions(&lines, 0, error_manager, &ExpressionType::Empty, false);
        Ok(Parser { script_type: t, global_expressions })
    }
}

} // verus!
