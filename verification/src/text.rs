//! Character-sequence utilities shared by the crawler and the renderer:
//! lexicographic ordering, string equality, decimal rendering of numbers,
//! and splitting a URL into its `/`-separated segments.

use vstd::prelude::*;
use vstd::relations::sorted_by;
use vstd::seq_lib::lemma_sorted_unique;
use vstd::string::StrSliceExecFns;

verus! {

/// Lexicographic "less or equal" on character sequences, ordered by code
/// point. This coincides with the ordering `sort` on `String`s uses, since
/// UTF-8 byte order agrees with code-point order.
pub open spec fn lex_le(a: Seq<char>, b: Seq<char>) -> bool
    decreases a.len(),
{
    if a.len() == 0 {
        true
    } else if b.len() == 0 {
        false
    } else if (a[0] as u32) < (b[0] as u32) {
        true
    } else if (b[0] as u32) < (a[0] as u32) {
        false
    } else {
        lex_le(a.drop_first(), b.drop_first())
    }
}

/// `lex_le` as a binary relation value, for vstd's sorting vocabulary.
pub open spec fn lex_le_fn() -> spec_fn(Seq<char>, Seq<char>) -> bool {
    |a: Seq<char>, b: Seq<char>| lex_le(a, b)
}

/// Two characters with the same code point are the same character.
proof fn lemma_char_eq(x: char, y: char)
    requires
        x as u32 == y as u32,
    ensures
        x == y,
{
    vstd::utf8::char_u32_cast(x, x as u32);
    vstd::utf8::char_u32_cast(y, y as u32);
}

pub proof fn lemma_lex_le_refl(a: Seq<char>)
    ensures
        lex_le(a, a),
    decreases a.len(),
{
    if a.len() > 0 {
        lemma_lex_le_refl(a.drop_first());
    }
}

pub proof fn lemma_lex_le_antisym(a: Seq<char>, b: Seq<char>)
    requires
        lex_le(a, b),
        lex_le(b, a),
    ensures
        a == b,
    decreases a.len(),
{
    if a.len() == 0 {
        assert(b.len() == 0);
        assert(a =~= b);
    } else {
        assert(b.len() > 0);
        assert(a[0] as u32 <= b[0] as u32);
        assert(b[0] as u32 <= a[0] as u32);
        lemma_char_eq(a[0], b[0]);
        lemma_lex_le_antisym(a.drop_first(), b.drop_first());
        assert(a.len() == b.len());
        assert forall|i: int| 0 <= i < a.len() implies a[i] == b[i] by {
            if i > 0 {
                assert(a[i] == a.drop_first()[i - 1]);
                assert(b[i] == b.drop_first()[i - 1]);
            }
        }
        assert(a =~= b);
    }
}

pub proof fn lemma_lex_le_trans(a: Seq<char>, b: Seq<char>, c: Seq<char>)
    requires
        lex_le(a, b),
        lex_le(b, c),
    ensures
        lex_le(a, c),
    decreases a.len(),
{
    if a.len() > 0 {
        assert(b.len() > 0);
        assert(c.len() > 0);
        assert(a[0] as u32 <= b[0] as u32);
        assert(b[0] as u32 <= c[0] as u32);
        if a[0] as u32 == b[0] as u32 && b[0] as u32 == c[0] as u32 {
            lemma_char_eq(a[0], b[0]);
            lemma_char_eq(b[0], c[0]);
            lemma_lex_le_trans(a.drop_first(), b.drop_first(), c.drop_first());
            assert(lex_le(a, c));
        } else {
            assert((a[0] as u32) < (c[0] as u32));
            assert(lex_le(a, c));
        }
    }
}

pub proof fn lemma_lex_le_connected(a: Seq<char>, b: Seq<char>)
    ensures
        lex_le(a, b) || lex_le(b, a),
    decreases a.len(),
{
    if a.len() > 0 && b.len() > 0 {
        lemma_lex_le_connected(a.drop_first(), b.drop_first());
    }
}

/// `lex_le` is a total ordering in the sense of `vstd::relations`.
pub proof fn lemma_lex_le_total_ordering()
    ensures
        vstd::relations::total_ordering(lex_le_fn()),
{
    let leq = lex_le_fn();
    assert forall|a: Seq<char>| #[trigger] leq(a, a) by {
        lemma_lex_le_refl(a);
    }
    assert forall|a: Seq<char>, b: Seq<char>| #[trigger] leq(a, b) && #[trigger] leq(b, a)
        implies a == b by {
        lemma_lex_le_antisym(a, b);
    }
    assert forall|a: Seq<char>, b: Seq<char>, c: Seq<char>|
        #[trigger] leq(a, b) && #[trigger] leq(b, c) implies leq(a, c) by {
        lemma_lex_le_trans(a, b, c);
    }
    assert forall|a: Seq<char>, b: Seq<char>| #[trigger] leq(a, b) || #[trigger] leq(b, a) by {
        lemma_lex_le_connected(a, b);
    }
}

/// Dropping an equal prefix of both sequences does not change their order.
proof fn lemma_lex_le_skip(a: Seq<char>, b: Seq<char>, i: int)
    requires
        0 <= i <= a.len(),
        i <= b.len(),
        forall|j: int| 0 <= j < i ==> a[j] == b[j],
    ensures
        lex_le(a, b) == lex_le(a.skip(i), b.skip(i)),
    decreases i,
{
    if i > 0 {
        assert(a.len() > 0 && b.len() > 0);
        assert(a[0] == b[0]);
        assert(a.drop_first().skip(i - 1) =~= a.skip(i));
        assert(b.drop_first().skip(i - 1) =~= b.skip(i));
        lemma_lex_le_skip(a.drop_first(), b.drop_first(), i - 1);
    } else {
        assert(a.skip(0) =~= a);
        assert(b.skip(0) =~= b);
    }
}

/// Character-by-character equality test on string slices.
pub fn str_eq(a: &str, b: &str) -> (r: bool)
    ensures
        r == (a@ == b@),
{
    let alen = a.unicode_len();
    let blen = b.unicode_len();
    if alen != blen {
        return false;
    }
    let mut i: usize = 0;
    while i < alen
        invariant
            alen == a@.len(),
            blen == b@.len(),
            alen == blen,
            i <= alen,
            forall|j: int| 0 <= j < i ==> a@[j] == b@[j],
        decreases alen - i,
    {
        let ca = a.get_char(i);
        let cb = b.get_char(i);
        if ca != cb {
            return false;
        }
        i += 1;
    }
    proof {
        assert(a@ =~= b@);
    }
    true
}

/// Executable decision procedure for `lex_le` on string slices.
pub fn str_lex_le(a: &str, b: &str) -> (r: bool)
    ensures
        r == lex_le(a@, b@),
{
    let alen = a.unicode_len();
    let blen = b.unicode_len();
    let mut i: usize = 0;
    loop
        invariant
            alen == a@.len(),
            blen == b@.len(),
            i <= alen,
            i <= blen,
            forall|j: int| 0 <= j < i ==> a@[j] == b@[j],
        decreases alen - i,
    {
        if i == alen {
            proof {
                lemma_lex_le_skip(a@, b@, i as int);
                assert(a@.skip(i as int).len() == 0);
            }
            return true;
        }
        if i == blen {
            proof {
                lemma_lex_le_skip(a@, b@, i as int);
                assert(b@.skip(i as int).len() == 0);
                assert(a@.skip(i as int).len() > 0);
            }
            return false;
        }
        let ca = a.get_char(i);
        let cb = b.get_char(i);
        if (ca as u32) < (cb as u32) {
            proof {
                lemma_lex_le_skip(a@, b@, i as int);
                assert(a@.skip(i as int)[0] == ca);
                assert(b@.skip(i as int)[0] == cb);
            }
            return true;
        }
        if (cb as u32) < (ca as u32) {
            proof {
                lemma_lex_le_skip(a@, b@, i as int);
                assert(a@.skip(i as int)[0] == ca);
                assert(b@.skip(i as int)[0] == cb);
            }
            return false;
        }
        proof {
            lemma_char_eq(ca, cb);
        }
        i += 1;
    }
}

/// Mapping distributes over appending one element.
pub proof fn lemma_map_values_push<A, B>(s: Seq<A>, x: A, f: spec_fn(A) -> B)
    ensures
        (s.push(x)).map_values(f) =~= s.map_values(f).push(f(x)),
{
}

/// The position a new line belongs at in an ascending list: the index of
/// the first element that is not `lex_le` the new one.
fn insert_pos(out: &Vec<String>, x: &str) -> (p: usize)
    ensures
        p <= out@.len(),
        forall|j: int| 0 <= j < p ==> lex_le(#[trigger] out@[j]@, x@),
        p < out@.len() ==> !lex_le(out@[p as int]@, x@),
{
    let n = out.len();
    let mut p: usize = 0;
    while p < n
        invariant
            n == out@.len(),
            p <= n,
            forall|j: int| 0 <= j < p ==> lex_le(#[trigger] out@[j]@, x@),
        decreases n - p,
    {
        if !str_lex_le(out[p].as_str(), x) {
            return p;
        }
        p += 1;
    }
    p
}

/// Sorts the lines into ascending lexicographic order.
#[verifier::rlimit(50)]
pub fn sort_strings(v: Vec<String>) -> (out: Vec<String>)
    ensures
        out@.map_values(|s: String| s@) == v@.map_values(|s: String| s@).sort_by(lex_le_fn()),
{
    broadcast use vstd::seq_lib::group_to_multiset_ensures;

    let mut out: Vec<String> = Vec::new();
    let n = v.len();
    let mut i: usize = 0;
    proof {
        assert(out@.map_values(|s: String| s@) =~= Seq::<Seq<char>>::empty());
        assert(v@.subrange(0, 0).map_values(|s: String| s@) =~= Seq::<Seq<char>>::empty());
    }
    while i < n
        invariant
            n == v@.len(),
            i <= n,
            sorted_by(out@.map_values(|s: String| s@), lex_le_fn()),
            out@.map_values(|s: String| s@).to_multiset() == v@.subrange(0, i as int).map_values(
                |s: String| s@,
            ).to_multiset(),
        decreases n - i,
    {
        broadcast use vstd::seq_lib::group_to_multiset_ensures;

        let x = v[i].clone();
        let ghost ov0 = out@.map_values(|s: String| s@);
        let p = insert_pos(&out, x.as_str());
        out.insert(p, x);
        proof {
            let leq = lex_le_fn();
            let ov1 = out@.map_values(|s: String| s@);
            ov0.insert_ensures(p as int, x@);
            assert(ov1 =~= ov0.insert(p as int, x@));
            vstd::seq_lib::to_multiset_insert(ov0, p as int, x@);
            assert(v@.subrange(0, i as int + 1).map_values(|s: String| s@) =~= v@.subrange(
                0,
                i as int,
            ).map_values(|s: String| s@).push(x@));
            assert(ov1.to_multiset() == v@.subrange(0, i as int + 1).map_values(
                |s: String| s@,
            ).to_multiset());
            if (p as int) < ov0.len() {
                lemma_lex_le_connected(ov0[p as int], x@);
            }
            assert forall|a: int, b: int| 0 <= a < b < ov1.len() implies leq(ov1[a], ov1[b]) by {
                if b < p {
                    assert(ov1[a] == ov0[a]);
                    assert(ov1[b] == ov0[b]);
                } else if a < p && b == p {
                    assert(ov1[a] == ov0[a]);
                    assert(ov1[b] == x@);
                } else if a < p && b > p {
                    assert(ov1[a] == ov0[a]);
                    assert(ov1[b] == ov0[b - 1]);
                } else if a == p {
                    assert(ov1[a] == x@);
                    assert(ov1[b] == ov0[b - 1]);
                    assert(lex_le(x@, ov0[p as int]));
                    if b - 1 > p {
                        assert(leq(ov0[p as int], ov0[b - 1]));
                        lemma_lex_le_trans(x@, ov0[p as int], ov0[b - 1]);
                    }
                } else {
                    assert(ov1[a] == ov0[a - 1]);
                    assert(ov1[b] == ov0[b - 1]);
                }
            }
            assert(sorted_by(ov1, leq));
        }
        i += 1;
    }
    proof {
        assert(v@.subrange(0, n as int) =~= v@);
        let vv = v@.map_values(|s: String| s@);
        let ovf = out@.map_values(|s: String| s@);
        lemma_lex_le_total_ordering();
        vv.lemma_sort_by_ensures(lex_le_fn());
        lemma_sorted_unique(ovf, vv.sort_by(lex_le_fn()), lex_le_fn());
        assert(ovf == vv.sort_by(lex_le_fn()));
    }
    out
}

/// The decimal digit character for `d`, which must lie in `0 ..= 9`.
pub open spec fn dec_digit(d: int) -> char {
    if d == 0 {
        '0'
    } else if d == 1 {
        '1'
    } else if d == 2 {
        '2'
    } else if d == 3 {
        '3'
    } else if d == 4 {
        '4'
    } else if d == 5 {
        '5'
    } else if d == 6 {
        '6'
    } else if d == 7 {
        '7'
    } else if d == 8 {
        '8'
    } else {
        '9'
    }
}

/// Decimal representation of a non-negative integer, most significant digit
/// first, with no leading zeros (a single `'0'` for zero).
pub open spec fn dec_nat(n: int) -> Seq<char>
    decreases n,
{
    if n < 10 {
        seq![dec_digit(n)]
    } else {
        dec_nat(n / 10).push(dec_digit(n % 10))
    }
}

/// Decimal representation of a signed integer: a leading `'-'` when negative.
pub open spec fn dec_int(n: int) -> Seq<char> {
    if n < 0 {
        seq!['-'] + dec_nat(-n)
    } else {
        dec_nat(n)
    }
}

/// The single-character string for decimal digit `d`.
fn digit_str(d: u64) -> (r: &'static str)
    requires
        d < 10,
    ensures
        r@ =~= seq![dec_digit(d as int)],
{
    proof {
        reveal_strlit("0");
        reveal_strlit("1");
        reveal_strlit("2");
        reveal_strlit("3");
        reveal_strlit("4");
        reveal_strlit("5");
        reveal_strlit("6");
        reveal_strlit("7");
        reveal_strlit("8");
        reveal_strlit("9");
    }
    if d == 0 {
        "0"
    } else if d == 1 {
        "1"
    } else if d == 2 {
        "2"
    } else if d == 3 {
        "3"
    } else if d == 4 {
        "4"
    } else if d == 5 {
        "5"
    } else if d == 6 {
        "6"
    } else if d == 7 {
        "7"
    } else if d == 8 {
        "8"
    } else {
        "9"
    }
}

/// Renders `n` in decimal.
pub fn u64_to_dec(n: u64) -> (s: String)
    ensures
        s@ == dec_nat(n as int),
    decreases n,
{
    if n < 10 {
        String::from_str(digit_str(n))
    } else {
        let mut s = u64_to_dec(n / 10);
        s.append(digit_str(n % 10));
        proof {
            assert(s@ =~= dec_nat(n as int / 10).push(dec_digit(n as int % 10)));
        }
        s
    }
}

/// Renders `n` in decimal, with a leading minus sign when negative.
pub fn i64_to_dec(n: i64) -> (s: String)
    ensures
        s@ == dec_int(n as int),
{
    if n >= 0 {
        u64_to_dec(n as u64)
    } else {
        let m: u64 = ((-(n + 1)) as u64) + 1;
        proof {
            assert(m as int == -(n as int));
        }
        let mut s = String::from_str("-");
        let digits = u64_to_dec(m);
        s.append(digits.as_str());
        proof {
            reveal_strlit("-");
            assert(s@ =~= seq!['-'] + dec_nat(-(n as int)));
        }
        s
    }
}

/// The segments of `s` between occurrences of `sep`, with `cur` the partial
/// segment gathered so far. Splitting always yields at least one segment.
pub open spec fn split_acc(s: Seq<char>, sep: char, cur: Seq<char>) -> Seq<Seq<char>>
    decreases s.len(),
{
    if s.len() == 0 {
        seq![cur]
    } else if s[0] == sep {
        seq![cur] + split_acc(s.drop_first(), sep, Seq::empty())
    } else {
        split_acc(s.drop_first(), sep, cur.push(s[0]))
    }
}

/// The `sep`-separated segments of `s`, in order. Mirrors what splitting a
/// string on a one-character pattern yields.
pub open spec fn split_char(s: Seq<char>, sep: char) -> Seq<Seq<char>> {
    split_acc(s, sep, Seq::empty())
}

/// Splits a string on `'/'`, returning the segments in order.
pub fn split_slash(s: &str) -> (segs: Vec<String>)
    ensures
        segs@.map_values(|x: String| x@) =~= split_char(s@, '/'),
{
    let len = s.unicode_len();
    let mut segs: Vec<String> = Vec::new();
    let mut start: usize = 0;
    let mut i: usize = 0;
    proof {
        assert(s@.skip(0) =~= s@);
        assert(s@.subrange(0, 0) =~= Seq::<char>::empty());
        assert(segs@.map_values(|x: String| x@) =~= Seq::<Seq<char>>::empty());
        assert(segs@.map_values(|x: String| x@) + split_acc(s@, '/', Seq::<char>::empty())
            =~= split_acc(s@, '/', Seq::<char>::empty()));
    }
    while i < len
        invariant
            len == s@.len(),
            start <= i <= len,
            split_char(s@, '/') =~= segs@.map_values(|x: String| x@) + split_acc(
                s@.skip(i as int),
                '/',
                s@.subrange(start as int, i as int),
            ),
        decreases len - i,
    {
        let c = s.get_char(i);
        proof {
            assert(s@.skip(i as int)[0] == s@[i as int]);
            assert(s@.skip(i as int).drop_first() =~= s@.skip(i as int + 1));
        }
        if c == '/' {
            let seg = s.substring_char(start, i);
            segs.push(String::from_str(seg));
            proof {
                assert(seg@ =~= s@.subrange(start as int, i as int));
                assert((segs@.map_values(|x: String| x@)) =~= (segs@.drop_last().map_values(
                    |x: String| x@,
                )).push(seg@));
                assert(s@.subrange(i as int + 1, i as int + 1) =~= Seq::<char>::empty());
            }
            start = i + 1;
        } else {
            proof {
                assert(s@.subrange(start as int, i as int + 1) =~= s@.subrange(
                    start as int,
                    i as int,
                ).push(s@[i as int]));
            }
        }
        i += 1;
    }
    let seg = s.substring_char(start, len);
    segs.push(String::from_str(seg));
    proof {
        assert(s@.skip(len as int).len() == 0);
        assert(seg@ =~= s@.subrange(start as int, len as int));
        assert((segs@.map_values(|x: String| x@)) =~= (segs@.drop_last().map_values(
            |x: String| x@,
        )).push(seg@));
    }
    segs
}

} // verus!
