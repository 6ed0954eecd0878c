//! Character-level text utilities for the chat protocol: colour-code
//! stripping, case-insensitive prefix tests, substring search, splitting and
//! joining. Lines are handled as vectors of `char`, mirroring the chat
//! transport's per-character framing.

use vstd::prelude::*;

verus! {

/// A chat colour/formatting escape is `'&'` followed by one code character;
/// both are removed before semantic matching.
pub open spec fn strip_color_spec(s: Seq<char>) -> Seq<char>
    decreases s.len(),
{
    if s.len() == 0 {
        Seq::empty()
    } else if s[0] == '&' {
        if s.len() >= 2 {
            strip_color_spec(s.skip(2))
        } else {
            Seq::empty()
        }
    } else {
        seq![s[0]] + strip_color_spec(s.skip(1))
    }
}

/// Removes every `'&'`-escape pair from `s` (a lone trailing `'&'` is also
/// dropped).
pub fn strip_color(s: &Vec<char>) -> (r: Vec<char>)
    ensures
        r@ == strip_color_spec(s@),
{
    let mut r: Vec<char> = Vec::new();
    let mut i: usize = 0;
    proof {
        assert(s@.skip(0) =~= s@);
        assert(r@ + strip_color_spec(s@) =~= strip_color_spec(s@));
    }
    while i < s.len()
        invariant
            i <= s.len(),
            strip_color_spec(s@) == r@ + strip_color_spec(s@.skip(i as int)),
        decreases s.len() - i,
    {
        proof {
            assert(s@.skip(i as int)[0] == s@[i as int]);
        }
        if s[i] == '&' {
            if s.len() - i >= 2 {
                proof {
                    assert(s@.skip(i as int).skip(2) =~= s@.skip(i + 2));
                }
                i = i + 2;
            } else {
                proof {
                    assert(s@.skip(i as int).len() == 1);
                    assert(r@ + Seq::<char>::empty() =~= r@);
                }
                i = s.len();
            }
        } else {
            proof {
                assert(s@.skip(i as int).skip(1) =~= s@.skip(i + 1));
                assert(seq![s@[i as int]] + strip_color_spec(s@.skip(i + 1))
                    == strip_color_spec(s@.skip(i as int)));
            }
            r.push(s[i]);
            i = i + 1;
        }
    }
    proof {
        assert(s@.skip(s@.len() as int) =~= Seq::<char>::empty());
        assert(r@ + Seq::<char>::empty() =~= r@);
    }
    r
}

/// The numeric value of a character with ASCII upper-case letters folded to
/// lower case; all other characters are left as they are.
pub open spec fn lower_val(c: char) -> int {
    if 65 <= c as int && c as int <= 90 {
        c as int + 32
    } else {
        c as int
    }
}

/// `p` is a prefix of `s` up to ASCII case.
pub open spec fn starts_with_ci_spec(s: Seq<char>, p: Seq<char>) -> bool {
    &&& p.len() <= s.len()
    &&& forall|k: int| 0 <= k < p.len() ==> lower_val(s[k]) == lower_val(p[k])
}

/// Folds one ASCII upper-case letter to lower case, as a numeric value.
fn lower_u32(c: char) -> (r: u32)
    ensures
        r as int == lower_val(c),
{
    let a = c as u32;
    if 65 <= a && a <= 90 {
        a + 32
    } else {
        a
    }
}

/// Case-insensitive (ASCII) prefix test.
pub fn starts_with_ci(s: &Vec<char>, p: &Vec<char>) -> (r: bool)
    ensures
        r == starts_with_ci_spec(s@, p@),
{
    if p.len() > s.len() {
        return false;
    }
    let mut k: usize = 0;
    while k < p.len()
        invariant
            p.len() <= s.len(),
            k <= p.len(),
            forall|j: int| 0 <= j < k ==> lower_val(s@[j]) == lower_val(p@[j]),
        decreases p.len() - k,
    {
        let la = lower_u32(s[k]);
        let lb = lower_u32(p[k]);
        if la != lb {
            return false;
        }
        k = k + 1;
    }
    true
}

/// `p` occupies the positions of `s` starting at `i`.
pub open spec fn match_at(s: Seq<char>, p: Seq<char>, i: int) -> bool {
    &&& 0 <= i
    &&& i + p.len() <= s.len()
    &&& s.subrange(i, i + p.len() as int) == p
}

/// Exact prefix test.
pub fn starts_with(s: &Vec<char>, p: &Vec<char>) -> (r: bool)
    ensures
        r == p@.is_prefix_of(s@),
{
    if p.len() > s.len() {
        proof {
            assert(!p@.is_prefix_of(s@));
        }
        return false;
    }
    let mut k: usize = 0;
    while k < p.len()
        invariant
            p.len() <= s.len(),
            k <= p.len(),
            forall|j: int| 0 <= j < k ==> s@[j] == p@[j],
        decreases p.len() - k,
    {
        if s[k] != p[k] {
            proof {
                assert(s@.subrange(0, p@.len() as int)[k as int] != p@[k as int]);
            }
            return false;
        }
        k = k + 1;
    }
    proof {
        assert(s@.subrange(0, p@.len() as int) =~= p@);
    }
    true
}

/// Whether `p` matches somewhere inside `s`.
pub open spec fn contains_sub(s: Seq<char>, p: Seq<char>) -> bool {
    exists|i: int| match_at(s, p, i)
}

/// Finds the first position where `p` matches inside `s`.
pub fn find_sub(s: &Vec<char>, p: &Vec<char>) -> (r: Option<usize>)
    ensures
        match r {
            Some(i) => match_at(s@, p@, i as int) && forall|j: int|
                0 <= j < i ==> !match_at(s@, p@, j),
            None => !contains_sub(s@, p@),
        },
{
    if p.len() > s.len() {
        return None;
    }
    if p.len() == 0 {
        proof {
            assert(s@.subrange(0, 0) =~= p@);
        }
        return Some(0);
    }
    let n = s.len() - p.len();
    let mut i: usize = 0;
    while i <= n
        invariant
            1 <= p.len() <= s.len(),
            n == s.len() - p.len(),
            i <= n + 1,
            forall|j: int| 0 <= j < i ==> !match_at(s@, p@, j),
        decreases n + 1 - i,
    {
        let mut k: usize = 0;
        let mut hit: bool = true;
        while k < p.len()
            invariant
                i + p.len() <= s.len(),
                k <= p.len(),
                hit ==> forall|j: int| 0 <= j < k ==> s@[i + j] == p@[j],
                !hit ==> !match_at(s@, p@, i as int),
            decreases p.len() - k,
        {
            if s[i + k] != p[k] {
                proof {
                    assert(s@.subrange(i as int, i + p@.len())[k as int] == s@[i + k]);
                }
                hit = false;
                k = p.len();
            } else {
                k = k + 1;
            }
        }
        if hit {
            proof {
                assert(s@.subrange(i as int, i + p@.len()) =~= p@);
            }
            return Some(i);
        }
        i = i + 1;
    }
    proof {
        assert forall|j: int| !match_at(s@, p@, j) by {
            if 0 <= j < i {
            } else if j >= i {
                assert(j + p@.len() > s@.len());
            }
        }
    }
    None
}

/// Finds the first position at or after `from` where `p` matches inside `s`.
pub fn find_sub_from(s: &Vec<char>, p: &Vec<char>, from: usize) -> (r: Option<usize>)
    ensures
        match r {
            Some(i) => from <= i && match_at(s@, p@, i as int) && forall|j: int|
                from <= j < i ==> !match_at(s@, p@, j),
            None => forall|j: int| from as int <= j ==> !match_at(s@, p@, j),
        },
{
    if p.len() > s.len() {
        return None;
    }
    if p.len() == 0 {
        if from <= s.len() {
            proof {
                assert(s@.subrange(from as int, from as int) =~= p@);
            }
            return Some(from);
        } else {
            return None;
        }
    }
    if from > s.len() - p.len() {
        proof {
            assert forall|j: int| from as int <= j implies !match_at(s@, p@, j) by {
                assert(j + p@.len() > s@.len());
            }
        }
        return None;
    }
    let n = s.len() - p.len();
    let mut i: usize = from;
    while i <= n
        invariant
            1 <= p.len() <= s.len(),
            n == s.len() - p.len(),
            from <= i <= n + 1,
            forall|j: int| from <= j < i ==> !match_at(s@, p@, j),
        decreases n + 1 - i,
    {
        let mut k: usize = 0;
        let mut hit: bool = true;
        while k < p.len()
            invariant
                i + p.len() <= s.len(),
                k <= p.len(),
                hit ==> forall|j: int| 0 <= j < k ==> s@[i + j] == p@[j],
                !hit ==> !match_at(s@, p@, i as int),
            decreases p.len() - k,
        {
            if s[i + k] != p[k] {
                proof {
                    assert(s@.subrange(i as int, i + p@.len())[k as int] == s@[i + k]);
                }
                hit = false;
                k = p.len();
            } else {
                k = k + 1;
            }
        }
        if hit {
            proof {
                assert(s@.subrange(i as int, i + p@.len()) =~= p@);
            }
            return Some(i);
        }
        i = i + 1;
    }
    proof {
        assert forall|j: int| from as int <= j implies !match_at(s@, p@, j) by {
            if j >= i {
                assert(j + p@.len() > s@.len());
            }
        }
    }
    None
}

/// The first position at or after `i` where `p` matches inside `s`, for a
/// non-empty pattern.
pub open spec fn find_from(s: Seq<char>, p: Seq<char>, i: int) -> Option<int>
    decreases s.len() - i,
{
    if i < 0 || p.len() == 0 || i + p.len() > s.len() {
        None
    } else if s.subrange(i, i + p.len() as int) == p {
        Some(i)
    } else {
        find_from(s, p, i + 1)
    }
}

/// `find_from` returns exactly the first match position at or after `i`.
pub proof fn lemma_find_from_props(s: Seq<char>, p: Seq<char>, i: int)
    requires
        0 <= i,
        p.len() >= 1,
    ensures
        match find_from(s, p, i) {
            Some(j) => i <= j && match_at(s, p, j) && forall|k: int|
                i <= k < j ==> !match_at(s, p, k),
            None => forall|k: int| i <= k ==> !match_at(s, p, k),
        },
    decreases s.len() - i,
{
    if i + p.len() > s.len() {
        assert forall|k: int| i <= k implies !match_at(s, p, k) by {
            assert(k + p.len() > s.len());
        }
    } else if s.subrange(i, i + p.len() as int) == p {
    } else {
        lemma_find_from_props(s, p, i + 1);
        assert(!match_at(s, p, i));
    }
}

/// A first match found by an executable search from position `from` is the
/// match `find_from` denotes, and an exhaustive miss is its `None`.
pub proof fn lemma_first_match_unique(s: Seq<char>, p: Seq<char>, from: int, r: Option<int>)
    requires
        p.len() >= 1,
        0 <= from,
        match r {
            Some(i) => from <= i && match_at(s, p, i) && forall|j: int|
                from <= j < i ==> !match_at(s, p, j),
            None => forall|j: int| from <= j ==> !match_at(s, p, j),
        },
    ensures
        find_from(s, p, from) == r,
{
    lemma_find_from_props(s, p, from);
    match r {
        Some(i) => {
            match find_from(s, p, from) {
                Some(j) => {
                    if j < i {
                        assert(!match_at(s, p, j));
                    }
                    if i < j {
                        assert(!match_at(s, p, i));
                    }
                },
                None => {
                    assert(!match_at(s, p, i));
                },
            }
        },
        None => {
            match find_from(s, p, from) {
                Some(j) => {
                    assert(match_at(s, p, j));
                },
                None => {},
            }
        },
    }
}

/// Character-for-character equality of two lines.
pub fn chars_eq(a: &Vec<char>, b: &Vec<char>) -> (r: bool)
    ensures
        r == (a@ == b@),
{
    if a.len() != b.len() {
        return false;
    }
    let mut k: usize = 0;
    while k < a.len()
        invariant
            a@.len() == b@.len(),
            k <= a@.len(),
            forall|j: int| 0 <= j < k ==> a@[j] == b@[j],
        decreases a@.len() - k,
    {
        if a[k] != b[k] {
            return false;
        }
        k = k + 1;
    }
    proof {
        assert(a@ =~= b@);
    }
    true
}

/// Splits `s` at every occurrence of the non-empty separator `sep`,
/// left to right; the separators themselves are dropped.
pub open spec fn split_spec(s: Seq<char>, sep: Seq<char>) -> Seq<Seq<char>>
    decreases s.len(),
        via split_spec_dec
{
    if sep.len() == 0 {
        seq![s]
    } else {
        match find_from(s, sep, 0) {
            None => seq![s],
            Some(i) => seq![s.subrange(0, i)] + split_spec(
                s.subrange(i + sep.len() as int, s.len() as int),
                sep,
            ),
        }
    }
}

#[via_fn]
proof fn split_spec_dec(s: Seq<char>, sep: Seq<char>) {
    if sep.len() >= 1 {
        lemma_find_from_props(s, sep, 0);
    }
}

/// Joins `parts` with `sep` between neighbouring parts.
pub open spec fn join_spec(parts: Seq<Seq<char>>, sep: Seq<char>) -> Seq<char>
    decreases parts.len(),
{
    if parts.len() == 0 {
        Seq::empty()
    } else if parts.len() == 1 {
        parts[0]
    } else {
        parts[0] + sep + join_spec(parts.skip(1), sep)
    }
}

/// Concatenation of `parts` with nothing in between.
pub open spec fn concat_spec(parts: Seq<Seq<char>>) -> Seq<char> {
    join_spec(parts, Seq::empty())
}

/// Reassembly is associative: joining two runs of fragments one after the
/// other gives the same message as joining all the fragments in one pass.
/// So a logical message split into 1, 2 or N continuation fragments at any
/// boundaries reassembles to the same text no matter how the runs are
/// grouped, for a space join and for a bare concatenation alike.
pub proof fn lemma_join_append(a: Seq<Seq<char>>, b: Seq<Seq<char>>, sep: Seq<char>)
    requires
        a.len() >= 1,
        b.len() >= 1,
    ensures
        join_spec(a + b, sep) == join_spec(a, sep) + sep + join_spec(b, sep),
    decreases a.len(),
{
    if a.len() == 1 {
        assert((a + b).len() == 1 + b.len());
        assert((a + b)[0] == a[0]);
        assert((a + b).skip(1) =~= b);
        if b.len() == 0 {
        } else {
            assert(join_spec(a + b, sep) == (a + b)[0] + sep + join_spec((a + b).skip(1), sep));
            assert(join_spec(a, sep) == a[0]);
        }
    } else {
        lemma_join_append(a.skip(1), b, sep);
        assert((a + b).skip(1) =~= a.skip(1) + b);
        assert(join_spec(a + b, sep) == (a + b)[0] + sep + join_spec((a + b).skip(1), sep));
        assert(join_spec(a, sep) + sep + join_spec(b, sep) == a[0] + sep + (join_spec(
            a.skip(1),
            sep,
        ) + sep + join_spec(b, sep)));
    }
}

/// Cutting a message anywhere and reassembling the two fragments by bare
/// concatenation reproduces the message; together with `lemma_join_append`
/// this extends to any number of fragments, however the cuts are grouped.
pub proof fn lemma_reassemble_fragments(msg: Seq<char>, cut: int)
    requires
        0 <= cut <= msg.len(),
    ensures
        concat_spec(seq![msg.subrange(0, cut), msg.subrange(cut, msg.len() as int)]) == msg,
{
    let a = msg.subrange(0, cut);
    let b = msg.subrange(cut, msg.len() as int);
    assert(seq![a, b].skip(1) =~= seq![b]);
    assert(seq![a, b][0] == a);
    assert(join_spec(seq![b], Seq::<char>::empty()) == b);
    assert(concat_spec(seq![a, b]) == a + Seq::<char>::empty() + b);
    assert(a + Seq::<char>::empty() + b =~= msg);
}

/// Cutting a message at a space and reassembling the two fragments with a
/// single separating space reproduces the message: the space-join policy
/// preserves word boundaries.
pub proof fn lemma_reassemble_space_fragments(msg: Seq<char>, cut: int)
    requires
        0 <= cut < msg.len(),
        msg[cut] == ' ',
    ensures
        join_spec(
            seq![msg.subrange(0, cut), msg.subrange(cut + 1, msg.len() as int)],
            seq![' '],
        ) == msg,
{
    let a = msg.subrange(0, cut);
    let b = msg.subrange(cut + 1, msg.len() as int);
    assert(seq![a, b].skip(1) =~= seq![b]);
    assert(seq![a, b][0] == a);
    assert(join_spec(seq![b], seq![' ']) == b);
    assert(join_spec(seq![a, b], seq![' ']) == a + seq![' '] + b);
    assert(a + seq![' '] + b =~= msg);
}

/// Copies the character range `[a, b)` out of `s`.
pub fn subvec(s: &Vec<char>, a: usize, b: usize) -> (r: Vec<char>)
    requires
        a <= b <= s@.len(),
    ensures
        r@ == s@.subrange(a as int, b as int),
{
    let mut r: Vec<char> = Vec::new();
    let mut i: usize = a;
    while i < b
        invariant
            a <= i <= b <= s@.len(),
            r@ == s@.subrange(a as int, i as int),
        decreases b - i,
    {
        r.push(s[i]);
        proof {
            assert(r@ =~= s@.subrange(a as int, i + 1));
        }
        i = i + 1;
    }
    proof {
        assert(r@ =~= s@.subrange(a as int, b as int));
    }
    r
}

/// Splits `s` at every occurrence of the non-empty separator `sep`.
pub fn split_sub(s: &Vec<char>, sep: &Vec<char>) -> (parts: Vec<Vec<char>>)
    requires
        sep@.len() >= 1,
    ensures
        parts@.map_values(|p: Vec<char>| p@) == split_spec(s@, sep@),
        parts@.len() >= 1,
{
    let mut parts: Vec<Vec<char>> = Vec::new();
    let mut rest: Vec<char> = subvec(s, 0, s.len());
    proof {
        assert(rest@ =~= s@);
        assert(parts@.map_values(|p: Vec<char>| p@) + split_spec(rest@, sep@) =~= split_spec(
            s@,
            sep@,
        ));
    }
    loop
        invariant
            sep@.len() >= 1,
            split_spec(s@, sep@) == parts@.map_values(|p: Vec<char>| p@) + split_spec(
                rest@,
                sep@,
            ),
        decreases rest@.len(),
    {
        let found = find_sub(&rest, sep);
        proof {
            lemma_find_from_props(rest@, sep@, 0);
        }
        match found {
            None => {
                proof {
                    assert(split_spec(rest@, sep@) =~= seq![rest@]);
                    assert((parts@ + seq![rest]).map_values(|p: Vec<char>| p@) =~= parts@
                        .map_values(|p: Vec<char>| p@) + seq![rest@]);
                }
                parts.push(rest);
                proof {
                    assert(parts@.map_values(|p: Vec<char>| p@) =~= split_spec(s@, sep@));
                }
                return parts;
            },
            Some(i) => {
                proof {
                    // the exec search and the spec search both return the
                    // first match, hence the same position
                    match find_from(rest@, sep@, 0) {
                        Some(j) => {
                            if j < i {
                                assert(match_at(rest@, sep@, j));
                            }
                            if i < j {
                                assert(match_at(rest@, sep@, i as int));
                            }
                            assert(i as int == j);
                        },
                        None => {
                            assert(match_at(rest@, sep@, i as int));
                        },
                    }
                }
                proof {
                    assert(match_at(rest@, sep@, i as int));
                    assert(i + sep@.len() <= rest@.len());
                }
                let rest_len = rest.len();
                let head = subvec(&rest, 0, i);
                let tail = subvec(&rest, i + sep.len(), rest_len);
                proof {
                    assert(split_spec(rest@, sep@) == seq![rest@.subrange(0, i as int)]
                        + split_spec(tail@, sep@));
                    assert((parts@ + seq![head]).map_values(|p: Vec<char>| p@) =~= parts@
                        .map_values(|p: Vec<char>| p@) + seq![head@]);
                    assert(parts@.map_values(|p: Vec<char>| p@) + (seq![head@] + split_spec(
                        tail@,
                        sep@,
                    )) =~= (parts@.map_values(|p: Vec<char>| p@) + seq![head@]) + split_spec(
                        tail@,
                        sep@,
                    ));
                }
                parts.push(head);
                rest = tail;
            },
        }
    }
}

/// Appends the characters of `other` to `r`.
pub fn append_chars(r: &mut Vec<char>, other: &Vec<char>)
    ensures
        final(r)@ == old(r)@ + other@,
{
    let mut k: usize = 0;
    proof {
        assert(r@ =~= old(r)@ + other@.take(0));
    }
    while k < other.len()
        invariant
            k <= other@.len(),
            r@ == old(r)@ + other@.take(k as int),
        decreases other@.len() - k,
    {
        r.push(other[k]);
        proof {
            assert(old(r)@ + other@.take(k as int) + seq![other@[k as int]] =~= old(r)@
                + other@.take(k + 1));
        }
        k = k + 1;
    }
    proof {
        assert(other@.take(other@.len() as int) =~= other@);
    }
}

/// Joins `parts` with `sep` between neighbouring parts.
pub fn join_with(parts: &Vec<Vec<char>>, sep: &Vec<char>) -> (r: Vec<char>)
    ensures
        r@ == join_spec(parts@.map_values(|p: Vec<char>| p@), sep@),
{
    let ghost gparts = parts@.map_values(|p: Vec<char>| p@);
    let mut r: Vec<char> = Vec::new();
    let mut i: usize = 0;
    proof {
        assert(r@ =~= join_spec(gparts.take(0), sep@));
    }
    while i < parts.len()
        invariant
            gparts == parts@.map_values(|p: Vec<char>| p@),
            i <= parts@.len(),
            r@ == join_spec(gparts.take(i as int), sep@),
        decreases parts@.len() - i,
    {
        if i > 0 {
            append_chars(&mut r, sep);
        }
        append_chars(&mut r, &parts[i]);
        proof {
            assert(gparts.take(i as int) + seq![gparts[i as int]] =~= gparts.take(i + 1));
            if i > 0 {
                lemma_join_append(gparts.take(i as int), seq![gparts[i as int]], sep@);
            } else {
                assert(gparts.take(1) =~= seq![gparts[0]]);
            }
        }
        i = i + 1;
    }
    proof {
        assert(gparts.take(parts@.len() as int) =~= gparts);
    }
    r
}

} // verus!
