//! Verified text utilities shared by the parser, router and auth helpers:
//! substring search, splitting on a separator, joining, and
//! lexicographic comparison of keys.
use vstd::prelude::*;

verus! {

/// The pattern `pat` occurs in `s` starting at position `i`.
pub open spec fn occurs_at(s: Seq<char>, pat: Seq<char>, i: int) -> bool {
    0 <= i && i + pat.len() <= s.len() && s.subrange(i, i + pat.len()) == pat
}

/// `pat` occurs somewhere in `s`.
pub open spec fn contains_pat(s: Seq<char>, pat: Seq<char>) -> bool {
    exists|i: int| occurs_at(s, pat, i)
}

/// Position of the first occurrence of `pat` in `s` at or after `from`.
pub open spec fn find_from(s: Seq<char>, pat: Seq<char>, from: int) -> Option<int>
    decreases s.len() - from + 1,
{
    if from < 0 || from + pat.len() > s.len() {
        None
    } else if occurs_at(s, pat, from) {
        Some(from)
    } else {
        find_from(s, pat, from + 1)
    }
}

/// Position of the first occurrence of `pat` in `s`.
pub open spec fn find_first(s: Seq<char>, pat: Seq<char>) -> Option<int> {
    find_from(s, pat, 0)
}

pub proof fn lemma_find_from_some(s: Seq<char>, pat: Seq<char>, from: int, i: int)
    requires
        0 <= from,
        find_from(s, pat, from) == Some(i),
    ensures
        occurs_at(s, pat, i),
        from <= i,
        forall|j: int| from <= j < i ==> !occurs_at(s, pat, j),
    decreases s.len() - from + 1,
{
    if from < 0 || from + pat.len() > s.len() {
    } else if occurs_at(s, pat, from) {
    } else {
        lemma_find_from_some(s, pat, from + 1, i);
    }
}

pub proof fn lemma_find_from_none(s: Seq<char>, pat: Seq<char>, from: int)
    requires
        0 <= from,
        find_from(s, pat, from) is None,
    ensures
        forall|j: int| from <= j ==> !occurs_at(s, pat, j),
    decreases s.len() - from + 1,
{
    if from < 0 || from + pat.len() > s.len() {
        assert forall|j: int| from <= j implies !occurs_at(s, pat, j) by {
            if occurs_at(s, pat, j) {
                assert(j + pat.len() <= s.len());
            }
        }
    } else if occurs_at(s, pat, from) {
    } else {
        lemma_find_from_none(s, pat, from + 1);
    }
}

/// `find_first` and `contains_pat` agree.
pub proof fn lemma_find_first_contains(s: Seq<char>, pat: Seq<char>)
    ensures
        contains_pat(s, pat) <==> find_first(s, pat) is Some,
{
    if find_first(s, pat) is Some {
        lemma_find_from_some(s, pat, 0, find_first(s, pat)->Some_0);
    } else {
        lemma_find_from_none(s, pat, 0);
        if contains_pat(s, pat) {
            let i = choose|i: int| occurs_at(s, pat, i);
            assert(!occurs_at(s, pat, i));
        }
    }
}

/// Whether the characters of `pat` match `s` at position `i`, checked
/// character by character.
fn match_at(s: &str, pat: &str, i: usize, s_len: usize, pat_len: usize) -> (r: bool)
    requires
        s_len == s@.len(),
        pat_len == pat@.len(),
        i + pat_len <= s_len,
    ensures
        r == occurs_at(s@, pat@, i as int),
{
    let mut k: usize = 0;
    while k < pat_len
        invariant
            0 <= k <= pat_len,
            s_len == s@.len(),
            pat_len == pat@.len(),
            i + pat_len <= s_len,
            forall|m: int| 0 <= m < k ==> s@[i + m] == pat@[m],
        decreases pat_len - k,
    {
        let cs = s.get_char(i + k);
        let cp = pat.get_char(k);
        if cs != cp {
            assert(s@.subrange(i as int, i + pat@.len())[k as int] != pat@[k as int]);
            return false;
        }
        k = k + 1;
    }
    assert(s@.subrange(i as int, i + pat@.len()) =~= pat@);
    true
}

/// First occurrence of `pat` in `s`, as a character index.
pub fn find_str(s: &str, pat: &str) -> (r: Option<usize>)
    ensures
        match r {
            Some(i) => find_first(s@, pat@) == Some(i as int),
            None => find_first(s@, pat@) is None,
        },
{
    let s_len = s.unicode_len();
    let pat_len = pat.unicode_len();
    if pat_len > s_len {
        return None;
    }
    if pat_len == 0 {
        assert(s@.subrange(0, 0) =~= pat@);
        return Some(0);
    }
    let limit = s_len - pat_len;
    let mut i: usize = 0;
    while i <= limit
        invariant
            0 <= i <= limit + 1,
            limit == s_len - pat_len,
            s_len == s@.len(),
            pat_len == pat@.len(),
            0 < pat_len <= s_len,
            find_from(s@, pat@, 0) == find_from(s@, pat@, i as int),
        decreases limit + 1 - i,
    {
        if match_at(s, pat, i, s_len, pat_len) {
            return Some(i);
        }
        i = i + 1;
    }
    None
}

/// Whether `pat` occurs anywhere in `s`.
pub fn contains_str(s: &str, pat: &str) -> (r: bool)
    ensures
        r == contains_pat(s@, pat@),
{
    proof {
        lemma_find_first_contains(s@, pat@);
    }
    match find_str(s, pat) {
        Some(_) => true,
        None => false,
    }
}

/// The pieces of `s` between occurrences of the separator `pat`,
/// splitting at the first occurrence and recurring on the remainder.
pub open spec fn split_pat(s: Seq<char>, pat: Seq<char>) -> Seq<Seq<char>>
    decreases s.len(),
    when pat.len() > 0
    via split_pat_decreases
{
    match find_first(s, pat) {
        None => seq![s],
        Some(i) => seq![s.subrange(0, i)] + split_pat(
            s.subrange(i + pat.len(), s.len() as int),
            pat,
        ),
    }
}

#[via_fn]
proof fn split_pat_decreases(s: Seq<char>, pat: Seq<char>) {
    match find_first(s, pat) {
        None => {},
        Some(i) => {
            lemma_find_from_some(s, pat, 0, i);
        },
    }
}

/// A split yields at least one piece, and a string without the separator
/// is returned whole.
pub proof fn lemma_split_pat_basic(s: Seq<char>, pat: Seq<char>)
    requires
        pat.len() > 0,
    ensures
        split_pat(s, pat).len() >= 1,
        !contains_pat(s, pat) ==> split_pat(s, pat) == seq![s],
{
    lemma_find_first_contains(s, pat);
}

/// Copy of the characters of `s` from position `from` to position `to`.
pub fn substr_copy(s: &str, from: usize, to: usize) -> (r: String)
    requires
        from <= to <= s@.len(),
    ensures
        r@ == s@.subrange(from as int, to as int),
{
    String::from_str(s.substring_char(from, to))
}

/// Split `s` on every occurrence of the separator `pat`.
pub fn split_str(s: &str, pat: &str) -> (r: Vec<String>)
    requires
        pat@.len() > 0,
    ensures
        r.deep_view() == split_pat(s@, pat@),
        r.len() >= 1,
{
    let pat_len = pat.unicode_len();
    let mut parts: Vec<String> = Vec::new();
    let mut rest: String = String::from_str(s);
    let mut going = true;
    while going
        invariant
            pat@.len() == pat_len > 0,
            going ==> split_pat(s@, pat@) == parts.deep_view() + split_pat(rest@, pat@),
            !going ==> parts.deep_view() == split_pat(s@, pat@) && parts.len() >= 1,
        decreases rest@.len() + (if going {
            1int
        } else {
            0int
        }),
    {
        let ghost prev_parts = parts.deep_view();
        let ghost prev_rest = rest@;
        let rest_len = rest.as_str().unicode_len();
        match find_str(rest.as_str(), pat) {
            None => {
                parts.push(rest.clone());
                going = false;
                proof {
                    assert(split_pat(prev_rest, pat@) == seq![prev_rest]);
                    assert(parts.deep_view() =~= prev_parts + seq![prev_rest]);
                }
            },
            Some(i) => {
                proof {
                    lemma_find_from_some(rest@, pat@, 0, i as int);
                }
                let piece = substr_copy(rest.as_str(), 0, i);
                parts.push(piece);
                let tail = substr_copy(rest.as_str(), i + pat_len, rest_len);
                rest = tail;
                proof {
                    assert(split_pat(prev_rest, pat@) == seq![prev_rest.subrange(0, i as int)]
                        + split_pat(rest@, pat@));
                    assert(parts.deep_view() =~= prev_parts + seq![
                        prev_rest.subrange(0, i as int),
                    ]);
                    assert(parts.deep_view() + split_pat(rest@, pat@) =~= prev_parts + split_pat(
                        prev_rest,
                        pat@,
                    ));
                }
            },
        }
    }
    proof {
        lemma_split_pat_basic(s@, pat@);
    }
    parts
}

/// The pieces of `parts` written out with the separator `sep` between them.
pub open spec fn join_with(parts: Seq<Seq<char>>, sep: Seq<char>) -> Seq<char>
    decreases parts.len(),
{
    if parts.len() == 0 {
        Seq::empty()
    } else if parts.len() == 1 {
        parts[0]
    } else {
        parts[0] + sep + join_with(parts.drop_first(), sep)
    }
}

/// Appending one more piece to a join appends a separator and the piece.
pub proof fn lemma_join_push(parts: Seq<Seq<char>>, sep: Seq<char>, piece: Seq<char>)
    ensures
        parts.len() == 0 ==> join_with(parts.push(piece), sep) == piece,
        parts.len() > 0 ==> join_with(parts.push(piece), sep) =~= join_with(parts, sep) + sep
            + piece,
    decreases parts.len(),
{
    reveal_with_fuel(join_with, 3);
    if parts.len() == 0 {
        assert(parts.push(piece)[0] == piece);
    } else if parts.len() == 1 {
        assert(parts.push(piece).drop_first() =~= seq![piece]);
        assert(parts.push(piece)[0] == parts[0]);
    } else {
        lemma_join_push(parts.drop_first(), sep, piece);
        assert(parts.push(piece).drop_first() =~= parts.drop_first().push(piece));
        assert(parts.push(piece)[0] == parts[0]);
        assert(parts[0] + sep + (join_with(parts.drop_first(), sep) + sep + piece) =~= (parts[0]
            + sep + join_with(parts.drop_first(), sep)) + sep + piece);
    }
}

/// Write out the pieces of `parts` with the separator `sep` between them.
pub fn join_strs(parts: &Vec<String>, sep: &str) -> (r: String)
    ensures
        r@ == join_with(parts.deep_view(), sep@),
{
    let mut acc = String::new();
    let mut i: usize = 0;
    while i < parts.len()
        invariant
            0 <= i <= parts.len(),
            acc@ == join_with(parts.deep_view().take(i as int), sep@),
        decreases parts.len() - i,
    {
        let ghost prefix = parts.deep_view().take(i as int);
        if i > 0 {
            acc.append(sep);
        }
        acc.append(parts[i].as_str());
        proof {
            lemma_join_push(prefix, sep@, parts.deep_view()[i as int]);
            assert(parts.deep_view().take(i + 1) =~= prefix.push(parts.deep_view()[i as int]));
        }
        i = i + 1;
    }
    proof {
        assert(parts.deep_view().take(parts.len() as int) =~= parts.deep_view());
    }
    acc
}

/// Strict lexicographic order on character sequences, by code point.
pub open spec fn lex_lt(a: Seq<char>, b: Seq<char>) -> bool
    decreases a.len(),
{
    if b.len() == 0 {
        false
    } else if a.len() == 0 {
        true
    } else if (a[0] as u32) < (b[0] as u32) {
        true
    } else if (a[0] as u32) > (b[0] as u32) {
        false
    } else {
        lex_lt(a.drop_first(), b.drop_first())
    }
}

/// Two characters are equal exactly when their code points are.
proof fn lemma_char_eq_u32(a: char, b: char)
    ensures
        (a == b) <==> ((a as u32) == (b as u32)),
{
    vstd::utf8::char_u32_cast(a, a as u32);
    vstd::utf8::char_u32_cast(b, b as u32);
}

/// Of two sequences, exactly one of: the first is smaller, they are
/// equal, or the second is smaller.
pub proof fn lemma_lex_trichotomy(a: Seq<char>, b: Seq<char>)
    ensures
        lex_lt(a, b) || a == b || lex_lt(b, a),
        lex_lt(a, b) ==> a != b && !lex_lt(b, a),
        a == b ==> !lex_lt(a, b) && !lex_lt(b, a),
    decreases a.len(),
{
    if a.len() == 0 || b.len() == 0 {
        if a.len() == b.len() {
            assert(a =~= b);
        }
    } else {
        lemma_lex_trichotomy(a.drop_first(), b.drop_first());
        lemma_char_eq_u32(a[0], b[0]);
        if a[0] == b[0] {
            if a.drop_first() == b.drop_first() {
                assert forall|j: int| 0 <= j < a.len() implies a[j] == b[j] by {
                    if j >= 1 {
                        assert(a[j] == a.drop_first()[j - 1]);
                        assert(b[j] == b.drop_first()[j - 1]);
                    }
                }
                assert(a =~= b);
            }
            if a == b {
                assert(a.drop_first() =~= b.drop_first());
            }
        }
    }
}

/// Transitivity of the lexicographic order.
pub proof fn lemma_lex_transitive(a: Seq<char>, b: Seq<char>, c: Seq<char>)
    requires
        lex_lt(a, b),
        lex_lt(b, c),
    ensures
        lex_lt(a, c),
    decreases a.len() + b.len() + c.len(),
{
    if a.len() == 0 || b.len() == 0 || c.len() == 0 {
    } else {
        if (a[0] as u32) == (b[0] as u32) && (b[0] as u32) == (c[0] as u32) {
            lemma_lex_transitive(a.drop_first(), b.drop_first(), c.drop_first());
        }
    }
}

/// Three-way comparison result for route keys.
#[derive(PartialEq, Eq, Structural, Clone, Copy, Debug)]
pub enum KeyOrder {
    Less,
    Equal,
    Greater,
}

/// Three-way lexicographic comparison of two strings, by code point.
pub fn compare_str(a: &str, b: &str) -> (r: KeyOrder)
    ensures
        r == KeyOrder::Less <==> lex_lt(a@, b@),
        r == KeyOrder::Equal <==> a@ == b@,
        r == KeyOrder::Greater <==> lex_lt(b@, a@),
{
    proof {
        lemma_lex_trichotomy(a@, b@);
    }
    let a_len = a.unicode_len();
    let b_len = b.unicode_len();
    let min = if a_len < b_len {
        a_len
    } else {
        b_len
    };
    let mut i: usize = 0;
    while i < min
        invariant
            0 <= i <= min,
            min == if a_len < b_len {
                a_len
            } else {
                b_len
            },
            a_len == a@.len(),
            b_len == b@.len(),
            forall|j: int| 0 <= j < i ==> a@[j] == b@[j],
        decreases min - i,
    {
        let ca = a.get_char(i);
        let cb = b.get_char(i);
        if (ca as u32) < (cb as u32) {
            proof {
                lemma_lex_first_difference(a@, b@, i as int);
                lemma_lex_trichotomy(a@, b@);
            }
            return KeyOrder::Less;
        }
        if (ca as u32) > (cb as u32) {
            proof {
                lemma_lex_first_difference(b@, a@, i as int);
                lemma_lex_trichotomy(a@, b@);
            }
            return KeyOrder::Greater;
        }
        proof {
            lemma_char_eq_u32(a@[i as int], b@[i as int]);
        }
        i = i + 1;
    }
    if a_len == b_len {
        proof {
            assert(a@ =~= b@);
        }
        KeyOrder::Equal
    } else if a_len < b_len {
        proof {
            lemma_lex_prefix(a@, b@);
        }
        KeyOrder::Less
    } else {
        proof {
            lemma_lex_prefix(b@, a@);
        }
        KeyOrder::Greater
    }
}

/// If the first `i` characters agree and `a` is smaller at position `i`,
/// then `a` is lexicographically smaller.
proof fn lemma_lex_first_difference(a: Seq<char>, b: Seq<char>, i: int)
    requires
        0 <= i < a.len(),
        i < b.len(),
        forall|j: int| 0 <= j < i ==> a[j] == b[j],
        (a[i] as u32) < (b[i] as u32),
    ensures
        lex_lt(a, b),
    decreases i,
{
    if i == 0 {
    } else {
        assert(a[0] == b[0]);
        lemma_lex_first_difference(a.drop_first(), b.drop_first(), i - 1);
    }
}

/// A proper prefix is lexicographically smaller.
proof fn lemma_lex_prefix(a: Seq<char>, b: Seq<char>)
    requires
        a.len() < b.len(),
        forall|j: int| 0 <= j < a.len() ==> a[j] == b[j],
    ensures
        lex_lt(a, b),
    decreases a.len(),
{
    if a.len() == 0 {
    } else {
        lemma_lex_prefix(a.drop_first(), b.drop_first());
    }
}

/// An occurrence known at `i`, with none before it, is the first.
pub proof fn lemma_find_from_exact(s: Seq<char>, pat: Seq<char>, from: int, i: int)
    requires
        0 <= from <= i,
        occurs_at(s, pat, i),
        forall|j: int| from <= j < i ==> !occurs_at(s, pat, j),
    ensures
        find_from(s, pat, from) == Some(i),
    decreases i - from,
{
    if from == i {
    } else {
        assert(from + pat.len() <= s.len());
        lemma_find_from_exact(s, pat, from + 1, i);
    }
}

/// Splitting a join gives the pieces back, provided the separator's
/// first character starts nowhere inside a piece or inside the rest of
/// the separator itself.
pub proof fn lemma_split_join(pieces: Seq<Seq<char>>, sep: Seq<char>)
    requires
        pieces.len() >= 1,
        sep.len() > 0,
        forall|k: int| 1 <= k < sep.len() ==> #[trigger] sep[k] != sep[0],
        forall|i: int, pos: int|
            0 <= i < pieces.len() && 0 <= pos < pieces[i].len() ==> #[trigger] pieces[i][pos]
                != sep[0],
    ensures
        split_pat(join_with(pieces, sep), sep) == pieces,
    decreases pieces.len(),
{
    let s = join_with(pieces, sep);
    if pieces.len() == 1 {
        assert(!contains_pat(s, sep)) by {
            if contains_pat(s, sep) {
                let j = choose|j: int| occurs_at(s, sep, j);
                assert(s.subrange(j, j + sep.len())[0] == sep[0]);
                assert(pieces[0][j] == sep[0]);
            }
        }
        lemma_find_first_contains(s, sep);
        assert(split_pat(s, sep) =~= pieces);
    } else {
        let p0 = pieces[0];
        let rest = pieces.drop_first();
        let jrest = join_with(rest, sep);
        assert(s == p0 + sep + jrest);
        assert(occurs_at(s, sep, p0.len() as int)) by {
            assert(s.subrange(p0.len() as int, (p0.len() + sep.len()) as int) =~= sep);
        }
        assert forall|j: int| 0 <= j < p0.len() implies !occurs_at(s, sep, j) by {
            if occurs_at(s, sep, j) {
                assert(s.subrange(j, j + sep.len())[0] == sep[0]);
                assert(p0[j] == sep[0]);
            }
        }
        lemma_find_from_exact(s, sep, 0, p0.len() as int);
        assert(s.subrange(0, p0.len() as int) =~= p0);
        assert(s.subrange((p0.len() + sep.len()) as int, s.len() as int) =~= jrest);
        lemma_split_join(rest, sep);
        assert(split_pat(s, sep) =~= seq![p0] + split_pat(jrest, sep));
        assert(seq![p0] + rest =~= pieces);
    }
}

/// In a join of nonempty lines free of both separator characters, with a
/// two-character separator whose characters differ, every occurrence of
/// the separator's first character is followed by its second and then by
/// some other character, still inside the join.
pub proof fn lemma_join_char_structure(lines: Seq<Seq<char>>, sep: Seq<char>)
    requires
        lines.len() >= 1,
        sep.len() == 2,
        sep[1] != sep[0],
        forall|i: int, pos: int|
            0 <= i < lines.len() && 0 <= pos < lines[i].len() ==> #[trigger] lines[i][pos]
                != sep[0],
        forall|i: int| 0 <= i < lines.len() ==> lines[i].len() > 0,
    ensures
        join_with(lines, sep).len() >= lines[0].len(),
        forall|j: int|
            0 <= j < join_with(lines, sep).len() && #[trigger] join_with(lines, sep)[j] == sep[0]
                ==> j + 2 < join_with(lines, sep).len() && join_with(lines, sep)[j + 1] == sep[1]
                && join_with(lines, sep)[j + 2] != sep[0],
    decreases lines.len(),
{
    let s = join_with(lines, sep);
    if lines.len() == 1 {
        assert forall|j: int| 0 <= j < s.len() implies s[j] != sep[0] by {
            assert(lines[0][j] != sep[0]);
        }
    } else {
        let l0 = lines[0];
        let rest = lines.drop_first();
        let jrest = join_with(rest, sep);
        assert(s == l0 + sep + jrest);
        lemma_join_char_structure(rest, sep);
        assert(jrest.len() >= rest[0].len() > 0);
        assert(jrest[0] == rest[0][0]) by {
            if rest.len() == 1 {
            } else {
                assert(jrest == rest[0] + sep + join_with(rest.drop_first(), sep));
            }
        }
        assert(rest[0][0] != sep[0]);
        assert forall|j: int| 0 <= j < s.len() && #[trigger] s[j] == sep[0] implies j + 2 < s.len()
            && s[j + 1] == sep[1] && s[j + 2] != sep[0] by {
            if j < l0.len() {
                assert(l0[j] != sep[0]);
            } else if j == l0.len() {
                assert(s[j + 1] == sep[1]);
                assert(s[j + 2] == jrest[0]);
            } else if j == l0.len() + 1 {
                assert(s[j] == sep[1]);
            } else {
                let j2 = j - l0.len() - 2;
                assert(s[j] == jrest[j2]);
                assert(jrest[j2] == sep[0]);
                assert(j2 + 2 < jrest.len() && jrest[j2 + 1] == sep[1] && jrest[j2 + 2] != sep[0]);
                assert(s[j + 1] == jrest[j2 + 1]);
                assert(s[j + 2] == jrest[j2 + 2]);
            }
        }
    }
}

/// `s` with every trailing occurrence of the character `c` removed.
pub open spec fn trim_trailing(s: Seq<char>, c: char) -> Seq<char>
    decreases s.len(),
{
    if s.len() > 0 && s.last() == c {
        trim_trailing(s.drop_last(), c)
    } else {
        s
    }
}

/// `s` with every leading occurrence of the character `c` removed.
pub open spec fn trim_leading(s: Seq<char>, c: char) -> Seq<char>
    decreases s.len(),
{
    if s.len() > 0 && s[0] == c {
        trim_leading(s.drop_first(), c)
    } else {
        s
    }
}

/// Remove every trailing occurrence of the character `c` from `s`.
pub fn trim_trailing_str(s: &str, c: char) -> (r: String)
    ensures
        r@ == trim_trailing(s@, c),
{
    let len = s.unicode_len();
    let mut end: usize = len;
    proof {
        assert(s@.subrange(0, len as int) =~= s@);
    }
    while end > 0 && s.get_char(end - 1) == c
        invariant
            0 <= end <= len,
            len == s@.len(),
            trim_trailing(s@, c) == trim_trailing(s@.subrange(0, end as int), c),
        decreases end,
    {
        proof {
            assert(s@.subrange(0, end as int).drop_last() =~= s@.subrange(0, end - 1));
        }
        end = end - 1;
    }
    proof {
        if end > 0 {
            assert(s@.subrange(0, end as int).last() != c);
        }
        assert(trim_trailing(s@.subrange(0, end as int), c) == s@.subrange(0, end as int));
    }
    substr_copy(s, 0, end)
}

/// Remove every leading occurrence of the character `c` from `s`.
pub fn trim_leading_str(s: &str, c: char) -> (r: String)
    ensures
        r@ == trim_leading(s@, c),
{
    let len = s.unicode_len();
    let mut start: usize = 0;
    proof {
        assert(s@.subrange(0, len as int) =~= s@);
    }
    while start < len && s.get_char(start) == c
        invariant
            0 <= start <= len,
            len == s@.len(),
            trim_leading(s@, c) == trim_leading(s@.subrange(start as int, len as int), c),
        decreases len - start,
    {
        proof {
            assert(s@.subrange(start as int, len as int).drop_first() =~= s@.subrange(
                start + 1,
                len as int,
            ));
        }
        start = start + 1;
    }
    proof {
        assert(trim_leading(s@.subrange(start as int, len as int), c) == s@.subrange(
            start as int,
            len as int,
        ));
    }
    substr_copy(s, start, len)
}

} // verus!
