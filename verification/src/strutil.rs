//! Verified string utilities: trimming, splitting on a separator character,
//! whitespace field splitting, and comma joining. Each exec function is
//! specified against a structurally recursive model over `Seq<char>`.

use vstd::prelude::*;
use vstd::string::StrSliceExecFns;
use crate::chars::{is_space_char, char_is_space};

verus! {

/// `s` contains the character `c`.
pub open spec fn contains_char(s: Seq<char>, c: char) -> bool {
    exists|i: int| 0 <= i < s.len() && s[i] == c
}

/// The string with leading whitespace removed.
pub open spec fn ltrim_spec(s: Seq<char>) -> Seq<char>
    decreases s.len(),
{
    if s.len() > 0 && is_space_char(s[0]) {
        ltrim_spec(s.subrange(1, s.len() as int))
    } else {
        s
    }
}

/// The string with trailing whitespace removed.
pub open spec fn rtrim_spec(s: Seq<char>) -> Seq<char>
    decreases s.len(),
{
    if s.len() > 0 && is_space_char(s[s.len() - 1]) {
        rtrim_spec(s.subrange(0, s.len() - 1))
    } else {
        s
    }
}

/// The string with surrounding whitespace removed.
pub open spec fn trim_spec(s: Seq<char>) -> Seq<char> {
    rtrim_spec(ltrim_spec(s))
}

/// The pieces of `s` between occurrences of the separator `sep`; empty
/// pieces are kept, so the result always has one piece more than `s` has
/// separators.
pub open spec fn split_on(s: Seq<char>, sep: char) -> Seq<Seq<char>>
    decreases s.len(),
{
    if s.len() == 0 {
        seq![Seq::<char>::empty()]
    } else {
        let rest = split_on(s.subrange(1, s.len() as int), sep);
        if s[0] == sep {
            seq![Seq::<char>::empty()] + rest
        } else {
            seq![seq![s[0]] + rest[0]] + rest.subrange(1, rest.len() as int)
        }
    }
}

/// The maximal non-empty runs of non-whitespace characters in `s`.
pub open spec fn split_ws(s: Seq<char>) -> Seq<Seq<char>>
    decreases s.len(),
{
    if s.len() == 0 {
        Seq::<Seq<char>>::empty()
    } else if is_space_char(s[0]) {
        split_ws(s.subrange(1, s.len() as int))
    } else {
        let rest = split_ws(s.subrange(1, s.len() as int));
        if s.len() == 1 || is_space_char(s[1]) {
            seq![seq![s[0]]] + rest
        } else {
            seq![seq![s[0]] + rest[0]] + rest.subrange(1, rest.len() as int)
        }
    }
}

/// The pieces joined with a comma between each adjacent pair.
pub open spec fn join_comma(parts: Seq<Seq<char>>) -> Seq<char>
    decreases parts.len(),
{
    if parts.len() == 0 {
        Seq::<char>::empty()
    } else if parts.len() == 1 {
        parts[0]
    } else {
        parts[0] + seq![','] + join_comma(parts.subrange(1, parts.len() as int))
    }
}

pub proof fn lemma_ltrim(s: Seq<char>, a: int)
    requires
        0 <= a <= s.len(),
        forall|j: int| 0 <= j < a ==> is_space_char(s[j]),
        a == s.len() || !is_space_char(s[a]),
    ensures
        ltrim_spec(s) == s.subrange(a, s.len() as int),
    decreases a,
{
    if a == 0 {
        assert(s.subrange(0, s.len() as int) =~= s);
    } else {
        let t = s.subrange(1, s.len() as int);
        lemma_ltrim(t, a - 1);
        assert(t.subrange(a - 1, t.len() as int) =~= s.subrange(a, s.len() as int));
    }
}

pub proof fn lemma_rtrim(s: Seq<char>, b: int)
    requires
        0 <= b <= s.len(),
        forall|j: int| b <= j < s.len() ==> is_space_char(s[j]),
        b == 0 || !is_space_char(s[b - 1]),
    ensures
        rtrim_spec(s) == s.subrange(0, b),
    decreases s.len() - b,
{
    if b == s.len() {
        assert(s.subrange(0, b) =~= s);
    } else {
        let t = s.subrange(0, s.len() - 1);
        lemma_rtrim(t, b);
        assert(t.subrange(0, b) =~= s.subrange(0, b));
    }
}

pub proof fn lemma_split_on_len(s: Seq<char>, sep: char)
    ensures
        split_on(s, sep).len() >= 1,
    decreases s.len(),
{
    if s.len() > 0 {
        lemma_split_on_len(s.subrange(1, s.len() as int), sep);
    }
}

/// A string without the separator splits into itself alone.
pub proof fn lemma_split_on_whole(s: Seq<char>, sep: char)
    requires
        forall|j: int| 0 <= j < s.len() ==> s[j] != sep,
    ensures
        split_on(s, sep) == seq![s],
    decreases s.len(),
{
    if s.len() == 0 {
        assert(split_on(s, sep) =~~= seq![s]);
    } else {
        let t = s.subrange(1, s.len() as int);
        lemma_split_on_whole(t, sep);
        lemma_split_on_len(t, sep);
        assert(seq![s[0]] + t =~= s);
        assert(split_on(s, sep) =~~= seq![s]);
    }
}

/// If the first separator of `s` stands at `j`, the first piece is
/// everything before it and the rest splits on its own.
pub proof fn lemma_split_on_first(s: Seq<char>, sep: char, j: int)
    requires
        0 <= j < s.len(),
        s[j] == sep,
        forall|i: int| 0 <= i < j ==> s[i] != sep,
    ensures
        split_on(s, sep) == seq![s.subrange(0, j)] + split_on(
            s.subrange(j + 1, s.len() as int),
            sep,
        ),
    decreases j,
{
    let t = s.subrange(1, s.len() as int);
    if j == 0 {
        assert(t =~= s.subrange(1, s.len() as int));
        assert(s.subrange(0, 0) =~= Seq::<char>::empty());
        assert(split_on(s, sep) =~~= seq![s.subrange(0, 0)] + split_on(
            s.subrange(1, s.len() as int),
            sep,
        ));
    } else {
        lemma_split_on_first(t, sep, j - 1);
        lemma_split_on_len(t.subrange(j, t.len() as int), sep);
        assert(t.subrange(0, j - 1) =~= s.subrange(1, j));
        assert(t.subrange(j, t.len() as int) =~= s.subrange(j + 1, s.len() as int));
        assert(seq![s[0]] + s.subrange(1, j) =~= s.subrange(0, j));
        assert(split_on(s, sep) =~~= seq![s.subrange(0, j)] + split_on(
            s.subrange(j + 1, s.len() as int),
            sep,
        ));
    }
}

/// A field of `s` reaching from its start to the first whitespace (or the
/// end) stands first among its fields.
pub proof fn lemma_split_ws_piece(s: Seq<char>, j: int)
    requires
        0 < j <= s.len(),
        forall|i: int| 0 <= i < j ==> !is_space_char(s[i]),
        j == s.len() || is_space_char(s[j]),
    ensures
        split_ws(s) == seq![s.subrange(0, j)] + split_ws(s.subrange(j, s.len() as int)),
    decreases j,
{
    let t = s.subrange(1, s.len() as int);
    if j == 1 {
        if s.len() == 1 || is_space_char(s[1]) {
            assert(s.subrange(0, 1) =~= seq![s[0]]);
            assert(t =~= s.subrange(1, s.len() as int));
            assert(split_ws(s) =~~= seq![s.subrange(0, 1)] + split_ws(
                s.subrange(1, s.len() as int),
            ));
        }
    } else {
        lemma_split_ws_piece(t, j - 1);
        assert(t.subrange(0, j - 1) =~= s.subrange(1, j));
        assert(t.subrange(j - 1, t.len() as int) =~= s.subrange(j, s.len() as int));
        assert(seq![s[0]] + s.subrange(1, j) =~= s.subrange(0, j));
        assert(split_ws(s) =~~= seq![s.subrange(0, j)] + split_ws(
            s.subrange(j, s.len() as int),
        ));
    }
}

/// A string starting with a non-whitespace character has a first field.
pub proof fn lemma_split_ws_len(s: Seq<char>)
    requires
        s.len() > 0,
        !is_space_char(s[0]),
    ensures
        split_ws(s).len() >= 1,
    decreases s.len(),
{
    if s.len() > 1 && !is_space_char(s[1]) {
        lemma_split_ws_len(s.subrange(1, s.len() as int));
    }
}

/// Appending one more piece extends a comma join on the right.
pub proof fn lemma_join_comma_push(parts: Seq<Seq<char>>, p: Seq<char>)
    ensures
        join_comma(parts.push(p)) == if parts.len() == 0 {
            p
        } else {
            join_comma(parts) + seq![','] + p
        },
    decreases parts.len(),
{
    if parts.len() == 0 {
        assert(parts.push(p)[0] == p);
        assert(join_comma(parts.push(p)) == p);
    } else if parts.len() == 1 {
        assert(parts.push(p).subrange(1, 2) =~~= seq![p]);
        assert(join_comma(seq![p]) == p);
    } else {
        let t = parts.subrange(1, parts.len() as int);
        lemma_join_comma_push(t, p);
        assert(parts.push(p).subrange(1, parts.len() as int + 1) =~~= t.push(p));
        assert(join_comma(parts.push(p)) == parts[0] + seq![','] + join_comma(t.push(p)));
        assert(parts[0] + seq![','] + (join_comma(t) + seq![','] + p) =~= (parts[0] + seq![',']
            + join_comma(t)) + seq![','] + p);
    }
}

/// Remove surrounding whitespace.
pub fn trim_str<'a>(s: &'a str) -> (t: &'a str)
    ensures
        t@ == trim_spec(s@),
{
    let n = s.unicode_len();
    let mut a: usize = 0;
    while a < n && char_is_space(s.get_char(a))
        invariant
            0 <= a <= n,
            n == s@.len(),
            forall|j: int| 0 <= j < a ==> is_space_char(s@[j]),
        decreases n - a,
    {
        a += 1;
    }
    let mut b: usize = n;
    while b > a && char_is_space(s.get_char(b - 1))
        invariant
            a <= b <= n,
            n == s@.len(),
            forall|j: int| b <= j < n ==> is_space_char(s@[j]),
        decreases b,
    {
        b -= 1;
    }
    proof {
        lemma_ltrim(s@, a as int);
        let u = s@.subrange(a as int, n as int);
        lemma_rtrim(u, b - a);
        assert(u.subrange(0, b - a) =~= s@.subrange(a as int, b as int));
    }
    s.substring_char(a, b)
}

/// Split at every occurrence of `sep`, keeping empty pieces.
pub fn split_str_on(s: &str, sep: char) -> (parts: Vec<String>)
    ensures
        parts.deep_view() == split_on(s@, sep),
{
    let n = s.unicode_len();
    let mut parts: Vec<String> = Vec::new();
    let mut start: usize = 0;
    let mut i: usize = 0;
    proof {
        assert(s@.subrange(0, n as int) =~= s@);
        assert(parts.deep_view() =~~= Seq::<Seq<char>>::empty());
    }
    while i < n
        invariant
            0 <= start <= i <= n,
            n == s@.len(),
            forall|j: int| start <= j < i ==> s@[j] != sep,
            split_on(s@, sep) =~~= parts.deep_view() + split_on(
                s@.subrange(start as int, n as int),
                sep,
            ),
        decreases n - i,
    {
        let c = s.get_char(i);
        if c == sep {
            let piece = s.substring_char(start, i).to_owned();
            let ghost old_parts = parts.deep_view();
            parts.push(piece);
            proof {
                let u = s@.subrange(start as int, n as int);
                lemma_split_on_first(u, sep, i - start);
                assert(u.subrange(0, i - start) =~= s@.subrange(start as int, i as int));
                assert(u.subrange(i - start + 1, u.len() as int) =~= s@.subrange(
                    i + 1,
                    n as int,
                ));
                assert(parts.deep_view() =~~= old_parts.push(piece@));
                assert(parts.deep_view() + split_on(s@.subrange(i + 1, n as int), sep) =~~=
                    old_parts + split_on(u, sep));
            }
            start = i + 1;
        }
        i += 1;
    }
    let piece = s.substring_char(start, n).to_owned();
    let ghost old_parts = parts.deep_view();
    parts.push(piece);
    proof {
        lemma_split_on_whole(s@.subrange(start as int, n as int), sep);
        assert(parts.deep_view() =~~= old_parts.push(piece@));
        assert(parts.deep_view() =~~= old_parts + split_on(
            s@.subrange(start as int, n as int),
            sep,
        ));
    }
    parts
}

/// Split into whitespace-separated fields; whitespace runs are skipped and
/// every returned field is non-empty.
pub fn split_whitespace_str(s: &str) -> (parts: Vec<String>)
    ensures
        parts.deep_view() == split_ws(s@),
{
    let n = s.unicode_len();
    let mut parts: Vec<String> = Vec::new();
    let mut i: usize = 0;
    proof {
        assert(s@.subrange(0, n as int) =~= s@);
        assert(parts.deep_view() =~~= Seq::<Seq<char>>::empty());
    }
    while i < n
        invariant
            0 <= i <= n,
            n == s@.len(),
            split_ws(s@) =~~= parts.deep_view() + split_ws(s@.subrange(i as int, n as int)),
        decreases n - i,
    {
        let c = s.get_char(i);
        if char_is_space(c) {
            proof {
                let u = s@.subrange(i as int, n as int);
                assert(u.subrange(1, u.len() as int) =~= s@.subrange(i + 1, n as int));
            }
            i += 1;
        } else {
            let start = i;
            i += 1;
            while i < n && !char_is_space(s.get_char(i))
                invariant
                    start < i <= n,
                    n == s@.len(),
                    forall|j: int| start <= j < i ==> !is_space_char(s@[j]),
                decreases n - i,
            {
                i += 1;
            }
            let piece = s.substring_char(start, i).to_owned();
            let ghost old_parts = parts.deep_view();
            parts.push(piece);
            proof {
                let u = s@.subrange(start as int, n as int);
                lemma_split_ws_piece(u, i - start);
                assert(u.subrange(0, i - start) =~= s@.subrange(start as int, i as int));
                assert(u.subrange(i - start, u.len() as int) =~= s@.subrange(
                    i as int,
                    n as int,
                ));
                assert(parts.deep_view() =~~= old_parts.push(piece@));
                assert(parts.deep_view() + split_ws(s@.subrange(i as int, n as int)) =~~=
                    old_parts + split_ws(u));
            }
        }
    }
    proof {
        assert(split_ws(s@.subrange(n as int, n as int)) =~~= Seq::<Seq<char>>::empty());
        assert(parts.deep_view() + Seq::<Seq<char>>::empty() =~~= parts.deep_view());
    }
    parts
}

/// Join pieces with commas, as a mount option list is written.
pub fn join_comma_str(parts: &Vec<String>) -> (r: String)
    ensures
        r@ == join_comma(parts.deep_view()),
{
    let mut acc = String::new();
    let mut i: usize = 0;
    proof {
        assert(parts.deep_view().subrange(0, 0) =~~= Seq::<Seq<char>>::empty());
    }
    while i < parts.len()
        invariant
            0 <= i <= parts.len(),
            acc@ == join_comma(parts.deep_view().subrange(0, i as int)),
        decreases parts.len() - i,
    {
        proof {
            reveal_strlit(",");
        }
        if i > 0 {
            acc.append(",");
        }
        acc.append(parts[i].as_str());
        proof {
            let prefix = parts.deep_view().subrange(0, i as int);
            lemma_join_comma_push(prefix, parts.deep_view()[i as int]);
            assert(parts.deep_view().subrange(0, i + 1) =~~= prefix.push(
                parts.deep_view()[i as int],
            ));
            if i > 0 {
                assert(acc@ =~= join_comma(prefix) + seq![','] + parts.deep_view()[i as int]);
            }
        }
        i += 1;
    }
    proof {
        assert(parts.deep_view().subrange(0, parts.len() as int) =~~= parts.deep_view());
    }
    acc
}

/// Are two strings equal, character for character?
pub fn str_eq(a: &str, b: &str) -> (r: bool)
    ensures
        r == (a@ == b@),
{
    let na = a.unicode_len();
    let nb = b.unicode_len();
    if na != nb {
        return false;
    }
    let mut i: usize = 0;
    while i < na
        invariant
            0 <= i <= na,
            na == a@.len(),
            na == b@.len(),
            forall|j: int| 0 <= j < i ==> a@[j] == b@[j],
        decreases na - i,
    {
        if a.get_char(i) != b.get_char(i) {
            return false;
        }
        i += 1;
    }
    proof {
        assert(a@ =~= b@);
    }
    true
}

/// Does `s` contain the character `c`?
pub fn str_contains_char(s: &str, c: char) -> (r: bool)
    ensures
        r == contains_char(s@, c),
{
    let n = s.unicode_len();
    let mut i: usize = 0;
    while i < n
        invariant
            0 <= i <= n,
            n == s@.len(),
            forall|j: int| 0 <= j < i ==> s@[j] != c,
        decreases n - i,
    {
        if s.get_char(i) == c {
            return true;
        }
        i += 1;
    }
    false
}

} // verus!
