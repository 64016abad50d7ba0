//! Assignments: `modifier!modifier!name = value`, `name op= value`, `name++`.
use vstd::prelude::*;
use crate::text::{
    chars_of, concat, ends_with, split_all, split_strings, string_of, trim_end, trim_end_index,
    vec_ends_with,
};
use crate::utility::strings_view;

verus! {

pub open spec fn assignment_message() -> Seq<char> {
    "Failed to parse variable assignment. Expected a single '='."@
}

/// The modifiers, the variable name and the value text of an assignment.
pub type VarParts = (Seq<Seq<char>>, Seq<char>, Seq<char>);

/// What `parse_var(line)` returns.
///
/// The text is split at every `!`: the pieces before the last are the
/// modifiers. The last piece must hold exactly one `=`; the name is before it
/// and the value after it, and a name ending in `+ - * /` makes the value
/// `name op value`. Without a single `=`, a line ending in `++` or `--`
/// assigns `name+1` or `name-1`, where the name is the whole line without the
/// trailing `++`/`--`.
pub open spec fn parse_var_spec(line: Seq<char>) -> Result<VarParts, Seq<char>> {
    let pieces = split_all(line, '!');
    let modifiers = pieces.drop_last();
    let last = pieces.last();
    let eq = split_all(last, '=');
    if eq.len() != 2 {
        if ends_with(line, "++"@) {
            let temp = trim_end(line, "++"@);
            Ok((modifiers, temp, temp + "+1"@))
        } else if ends_with(line, "--"@) {
            let temp = trim_end(line, "--"@);
            Ok((modifiers, temp, temp + "-1"@))
        } else {
            Err(assignment_message())
        }
    } else {
        let name = eq[0];
        let value = eq[1];
        if name.len() > 0 && (name.last() == '+' || name.last() == '-' || name.last() == '*'
            || name.last() == '/') {
            let op = name.last();
            let trimmed = trim_end(name, seq![op]);
            Ok((modifiers, trimmed, trimmed.push(op) + value))
        } else {
            Ok((modifiers, name, value))
        }
    }
}

pub proof fn lemma_split_all_nonempty(s: Seq<char>, c: char)
    ensures
        split_all(s, c).len() >= 1,
{
    reveal_with_fuel(split_all, 1);
}

/// Parses an assignment into its modifiers, the variable name and the value.
pub fn parse_var(line: &str) -> (r: Result<(Vec<String>, String, String), String>)
    ensures
        match (r, parse_var_spec(line@)) {
            (Ok((m, n, v)), Ok((sm, sn, sv))) => strings_view(m@) == sm && n@ == sn && v@ == sv,
            (Err(e), Err(se)) => e@ == se,
            _ => false,
        },
{
    let v = chars_of(line);
    let mut identifier_split = split_strings(&v, '!');
    proof {
        lemma_split_all_nonempty(v@, '!');
    }
    let ghost pieces = strings_view(identifier_split@);
    let var_unsplit = identifier_split.pop().unwrap();
    assert(strings_view(identifier_split@) =~= pieces.drop_last());
    let last = chars_of(var_unsplit.as_str());
    let split = split_strings(&last, '=');
    if split.len() != 2 {
        let plus = chars_of("++");
        let minus = chars_of("--");
        if vec_ends_with(&v, &plus) {
            let e = trim_end_index(&v, &plus);
            let temp = string_of(&v, 0, e);
            let tail = String::from_str("+1");
            let value = concat(&temp, &tail);
            Ok((identifier_split, temp, value))
        } else if vec_ends_with(&v, &minus) {
            let e = trim_end_index(&v, &minus);
            let temp = string_of(&v, 0, e);
            let tail = String::from_str("-1");
            let value = concat(&temp, &tail);
            Ok((identifier_split, temp, value))
        } else {
            Err(String::from_str("Failed to parse variable assignment. Expected a single '='."))
        }
    } else {
        assert(strings_view(split@)[0] == split@[0]@);
        assert(strings_view(split@)[1] == split@[1]@);
        let name = chars_of(split[0].as_str());
        let n = name.len();
        if n > 0 && (name[n - 1] == '+' || name[n - 1] == '-' || name[n - 1] == '*' || name[n
            - 1] == '/') {
            let op = name[n - 1];
            let mut opv: Vec<char> = Vec::new();
            opv.push(op);
            assert(opv@ =~= seq![op]);
            let e = trim_end_index(&name, &opv);
            let mut value = string_of(&name, 0, e);
            crate::text::push_char(&mut value, op);
            value.append(split[1].as_str());
            Ok((identifier_split, string_of(&name, 0, e), value))
        } else {
            Ok((identifier_split, split[0].clone(), split[1].clone()))
        }
    }
}


/// `name++` and `name--`, with no `!` or `=` in the name and a name that
/// does not end in the same sign, assign `name+1` and `name-1` to `name`,
/// with no modifiers.
pub proof fn lemma_increment_decrement(n: Seq<char>)
    requires
        forall|i: int| 0 <= i < n.len() ==> n[i] != '!' && n[i] != '=',
    ensures
        !(n.len() > 0 && n.last() == '+') ==> parse_var_spec(n + "++"@) == Ok::<VarParts, Seq<char>>(
            (seq![], n, n + "+1"@),
        ),
        !(n.len() > 0 && n.last() == '-') ==> parse_var_spec(n + "--"@) == Ok::<VarParts, Seq<char>>(
            (seq![], n, n + "-1"@),
        ),
{
    reveal_strlit("++");
    reveal_strlit("--");
    assert("++"@ =~= seq!['+', '+']);
    assert("--"@ =~= seq!['-', '-']);
    lemma_sign_line(n, '+', "++"@);
    lemma_sign_line(n, '-', "--"@);
    let minus = n + "--"@;
    assert(minus.subrange(minus.len() - 2, minus.len() as int)[1] == '-');
    assert(!crate::text::ends_with(minus, "++"@));
    assert(split_all(n + "++"@, '!').drop_last() =~= Seq::<Seq<char>>::empty());
    assert(split_all(minus, '!').drop_last() =~= Seq::<Seq<char>>::empty());
}

proof fn lemma_sign_line(n: Seq<char>, c: char, p: Seq<char>)
    requires
        forall|i: int| 0 <= i < n.len() ==> n[i] != '!' && n[i] != '=',
        p == seq![c, c],
        c == '+' || c == '-',
    ensures
        ({
            let line = n + p;
            &&& split_all(line, '!') == seq![line]
            &&& split_all(line, '=') == seq![line]
            &&& crate::text::ends_with(line, p)
            &&& !(n.len() > 0 && n.last() == c) ==> crate::text::trim_end(line, p) == n
        }),
{
    let line = n + p;
    crate::text::lemma_find_char(line, '!');
    crate::text::lemma_find_char(line, '=');
    assert forall|j: int| 0 <= j < line.len() implies line[j] != '!' && line[j] != '=' by {
        if j < n.len() {
            assert(line[j] == n[j]);
        }
    }
    assert(line.subrange(line.len() - 2, line.len() as int) =~= p);
    reveal_with_fuel(crate::text::trim_end, 2);
    assert(line.subrange(0, line.len() - 2) =~= n);
    if !(n.len() > 0 && n.last() == c) {
        if n.len() >= 2 {
            assert(n.subrange(n.len() - 2, n.len() as int) != p) by {
                assert(n.subrange(n.len() - 2, n.len() as int)[1] == n.last());
            }
        }
    }
}

/// Text with no `c` is one piece when split at `c`; text with one `c` is two.
proof fn lemma_split_once(a: Seq<char>, b: Seq<char>, c: char)
    requires
        forall|i: int| 0 <= i < a.len() ==> a[i] != c,
        forall|i: int| 0 <= i < b.len() ==> b[i] != c,
    ensures
        split_all(a, c) == seq![a],
        split_all(a.push(c) + b, c) == seq![a, b],
{
    crate::text::lemma_find_char(a, c);
    crate::text::lemma_find_char(b, c);
    let line = a.push(c) + b;
    assert(line[a.len() as int] == c);
    assert forall|j: int| 0 <= j < a.len() implies line[j] != c by {
        assert(line[j] == a[j]);
    }
    crate::text::lemma_find_char_is(line, c, a.len() as int);
    assert(line.subrange(0, a.len() as int) =~= a);
    assert(line.subrange(a.len() as int + 1, line.len() as int) =~= b);
    assert(split_all(b, c) == seq![b]);
    assert(split_all(line, c) == seq![line.subrange(0, a.len() as int)] + split_all(
        line.subrange(a.len() as int + 1, line.len() as int),
        c,
    ));
    assert(seq![a] + seq![b] =~= seq![a, b]);
}

/// `name = value`, with no `!` or `=` in either and a name that does not
/// end in `+ - * /`, assigns the value to the name; `name op= value`
/// assigns `name op value` to the name.
pub proof fn lemma_assignment(n: Seq<char>, v: Seq<char>, op: char)
    requires
        forall|i: int| 0 <= i < n.len() ==> n[i] != '!' && n[i] != '=',
        forall|i: int| 0 <= i < v.len() ==> v[i] != '!' && v[i] != '=',
        !(n.len() > 0 && (n.last() == '+' || n.last() == '-' || n.last() == '*' || n.last() == '/')),
        op == '+' || op == '-' || op == '*' || op == '/',
    ensures
        parse_var_spec(n.push('=') + v) == Ok::<VarParts, Seq<char>>((seq![], n, v)),
        parse_var_spec(n.push(op).push('=') + v) == Ok::<VarParts, Seq<char>>((seq![], n, n.push(op) + v)),
{
    let line1 = n.push('=') + v;
    let m = n.push(op);
    let line2 = m.push('=') + v;
    assert forall|i: int| 0 <= i < m.len() implies m[i] != '=' && m[i] != '!' by {
        if i < n.len() {
            assert(m[i] == n[i]);
        }
    }
    lemma_split_once(n, v, '=');
    lemma_split_once(m, v, '=');
    assert forall|i: int| 0 <= i < line1.len() implies line1[i] != '!' by {
        if i < n.len() {
            assert(line1[i] == n[i]);
        } else if i > n.len() {
            assert(line1[i] == v[i - n.len() - 1]);
        }
    }
    assert forall|i: int| 0 <= i < line2.len() implies line2[i] != '!' by {
        if i < m.len() {
            assert(line2[i] == m[i]);
        } else if i > m.len() {
            assert(line2[i] == v[i - m.len() - 1]);
        }
    }
    lemma_split_once(line1, seq![], '!');
    lemma_split_once(line2, seq![], '!');
    assert(seq![line1].drop_last() =~= Seq::<Seq<char>>::empty());
    assert(seq![line2].drop_last() =~= Seq::<Seq<char>>::empty());
    assert(m.last() == op);
    assert(crate::text::ends_with(m, seq![op])) by {
        assert(m.subrange(m.len() - 1, m.len() as int) =~= seq![op]);
    }
    reveal_with_fuel(crate::text::trim_end, 2);
    assert(m.subrange(0, m.len() - 1) =~= n);
    if n.len() > 0 {
        assert(n.subrange(n.len() - 1, n.len() as int)[0] == n.last());
        assert(!crate::text::ends_with(n, seq![op]));
    }
}

} // verus!
