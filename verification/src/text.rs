//! Text groundwork shared by the protocol parser and the position codec:
//! characters of a line, whitespace splitting, joining, and the decimal
//! number codec.

use vstd::prelude::*;
use vstd::string::StrSliceExecFns;

verus! {

/// The characters of `s`, in order.
pub fn chars_of(s: &str) -> (r: Vec<char>)
    ensures
        r@ == s@,
{
    let n = s.unicode_len();
    let mut r: Vec<char> = Vec::new();
    let mut i: usize = 0;
    while i < n
        invariant
            i <= n,
            n == s@.len(),
            r@ == s@.take(i as int),
        decreases n - i,
    {
        r.push(s.get_char(i));
        i += 1;
        proof {
            assert(r@ =~= s@.take(i as int));
        }
    }
    proof {
        assert(r@ =~= s@);
    }
    r
}

/// Relies on `String`'s `FromIterator<char>` implementation (`collect` over a
/// character iterator): the returned string holds exactly the characters of
/// `v`, in order.
#[verifier::external_body]
pub fn string_from_chars(v: &Vec<char>) -> (r: String)
    ensures
        r@ == v@,
{
    v.iter().collect()
}

/// Splitting `s` at every occurrence of `sep`; separators are not kept, and
/// the result always holds at least one (possibly empty) piece.
pub open spec fn spec_split(s: Seq<char>, sep: char) -> Seq<Seq<char>>
    decreases s.len(),
{
    if s.len() == 0 {
        seq![Seq::<char>::empty()]
    } else if s.last() == sep {
        spec_split(s.drop_last(), sep).push(Seq::<char>::empty())
    } else {
        let t = spec_split(s.drop_last(), sep);
        t.update(t.len() - 1, t.last().push(s.last()))
    }
}

pub proof fn lemma_split_nonempty(s: Seq<char>, sep: char)
    ensures
        spec_split(s, sep).len() >= 1,
    decreases s.len(),
{
    if s.len() > 0 {
        lemma_split_nonempty(s.drop_last(), sep);
    }
}

/// Splitting never looks past a separator: pieces concatenate independently.
pub proof fn lemma_split_append(s1: Seq<char>, s2: Seq<char>, sep: char)
    ensures
        spec_split(s1 + seq![sep] + s2, sep) == spec_split(s1, sep) + spec_split(s2, sep),
    decreases s2.len(),
{
    lemma_split_nonempty(s1, sep);
    lemma_split_nonempty(s2, sep);
    if s2.len() == 0 {
        let w = s1 + seq![sep] + s2;
        assert(w.drop_last() =~= s1);
        assert(w.last() == sep);
        assert(spec_split(w, sep) =~= spec_split(s1, sep) + spec_split(s2, sep));
    } else {
        let w = s1 + seq![sep] + s2;
        let w0 = s1 + seq![sep] + s2.drop_last();
        assert(w.drop_last() =~= w0);
        lemma_split_append(s1, s2.drop_last(), sep);
        lemma_split_nonempty(s2.drop_last(), sep);
        if s2.last() == sep {
            assert(spec_split(w, sep) =~= spec_split(s1, sep) + spec_split(s2, sep));
        } else {
            let t = spec_split(w0, sep);
            let t2 = spec_split(s2.drop_last(), sep);
            assert(t == spec_split(s1, sep) + t2);
            assert(t.last() == t2.last());
            assert(t.update(t.len() - 1, t.last().push(s2.last())) =~= spec_split(s1, sep)
                + t2.update(t2.len() - 1, t2.last().push(s2.last())));
            assert(spec_split(w, sep) =~= spec_split(s1, sep) + spec_split(s2, sep));
        }
    }
}

/// A piece without separators splits into just itself.
pub proof fn lemma_split_whole(s: Seq<char>, sep: char)
    requires
        forall|i: int| 0 <= i < s.len() ==> s[i] != sep,
    ensures
        spec_split(s, sep) == seq![s],
    decreases s.len(),
{
    if s.len() == 0 {
        assert(spec_split(s, sep) =~~= seq![s]);
    } else {
        lemma_split_whole(s.drop_last(), sep);
        let t = spec_split(s.drop_last(), sep);
        assert(t.update(t.len() - 1, t.last().push(s.last())) =~~= seq![s]);
    }
}

/// The pieces of `ts` joined with one `sep` between neighbours.
pub open spec fn join_with(ts: Seq<Seq<char>>, sep: char) -> Seq<char>
    decreases ts.len(),
{
    if ts.len() == 0 {
        Seq::<char>::empty()
    } else if ts.len() == 1 {
        ts[0]
    } else {
        join_with(ts.drop_last(), sep) + seq![sep] + ts.last()
    }
}

/// Joining separator-free pieces and splitting again gives the pieces back.
pub proof fn lemma_split_of_join(ts: Seq<Seq<char>>, sep: char)
    requires
        ts.len() >= 1,
        forall|i: int, j: int| 0 <= i < ts.len() && 0 <= j < ts[i].len() ==> ts[i][j] != sep,
    ensures
        spec_split(join_with(ts, sep), sep) == ts,
    decreases ts.len(),
{
    if ts.len() == 1 {
        lemma_split_whole(ts[0], sep);
        assert(spec_split(join_with(ts, sep), sep) =~~= ts);
    } else {
        lemma_split_of_join(ts.drop_last(), sep);
        lemma_split_whole(ts.last(), sep);
        lemma_split_append(join_with(ts.drop_last(), sep), ts.last(), sep);
        assert(spec_split(join_with(ts, sep), sep) =~~= ts);
    }
}

/// Splitting `v` at `sep`.
pub fn split_chars(v: &Vec<char>, sep: char) -> (r: Vec<Vec<char>>)
    ensures
        r.deep_view() == spec_split(v@, sep),
        r@.len() >= 1,
{
    let mut out: Vec<Vec<char>> = Vec::new();
    let mut cur: Vec<char> = Vec::new();
    let mut i: usize = 0;
    while i < v.len()
        invariant
            i <= v@.len(),
            out.deep_view().push(cur@) == spec_split(v@.take(i as int), sep),
        decreases v@.len() - i,
    {
        let c = v[i];
        i += 1;
        proof {
            assert(v@.take(i as int).drop_last() =~= v@.take(i as int - 1));
            assert(v@.take(i as int).last() == c);
        }
        if c == sep {
            let ghost old_out = out.deep_view();
            let ghost old_cur = cur@;
            out.push(cur);
            cur = Vec::new();
            proof {
                assert(out.deep_view() =~~= old_out.push(old_cur));
                assert(out.deep_view().push(cur@) =~~= spec_split(v@.take(i as int), sep));
            }
        } else {
            let ghost old_out = out.deep_view();
            let ghost old_cur = cur@;
            cur.push(c);
            proof {
                let t = spec_split(v@.take(i as int - 1), sep);
                assert(t == old_out.push(old_cur));
                assert(t.last() == old_cur);
                assert(out.deep_view().push(cur@) =~~= t.update(t.len() - 1, t.last().push(c)));
            }
        }
    }
    proof {
        assert(v@.take(v@.len() as int) =~= v@);
    }
    let ghost old_out = out.deep_view();
    out.push(cur);
    proof {
        assert(out.deep_view() =~~= old_out.push(cur@));
        assert(out.deep_view() =~~= spec_split(v@, sep));
    }
    out
}

pub open spec fn is_digit(c: char) -> bool {
    48 <= c as u32 <= 57
}

pub open spec fn digit_val(c: char) -> int {
    c as u32 - 48
}

pub open spec fn digit_char(d: int) -> char {
    ((d + 48) as u8) as char
}

/// Reading decimal digits left to right onto an accumulator; overflow past
/// `u64::MAX` is a failure, as is any non-digit character.
pub open spec fn parse_dec_rec(t: Seq<char>, acc: u64) -> Option<u64>
    decreases t.len(),
{
    if t.len() == 0 {
        Some(acc)
    } else if !is_digit(t[0]) {
        None
    } else if acc * 10 + digit_val(t[0]) > u64::MAX {
        None
    } else {
        parse_dec_rec(t.drop_first(), (acc * 10 + digit_val(t[0])) as u64)
    }
}

/// The value of a non-empty all-digit numeral that fits in a machine word.
pub open spec fn parse_dec(t: Seq<char>) -> Option<u64> {
    if t.len() == 0 {
        None
    } else {
        parse_dec_rec(t, 0)
    }
}

/// The canonical decimal numeral of `n`: no sign, no leading zero.
pub open spec fn dec_str(n: int) -> Seq<char>
    decreases n,
{
    if n < 10 {
        seq![digit_char(n)]
    } else {
        dec_str(n / 10).push(digit_char(n % 10))
    }
}

pub proof fn lemma_dec_str_digits(n: int)
    requires
        n >= 0,
    ensures
        dec_str(n).len() >= 1,
        forall|i: int| 0 <= i < dec_str(n).len() ==> is_digit(#[trigger] dec_str(n)[i]),
    decreases n,
{
    if n < 10 {
        assert(is_digit(digit_char(n)));
    } else {
        lemma_dec_str_digits(n / 10);
        assert(is_digit(digit_char(n % 10)));
        assert(forall|i: int|
            0 <= i < dec_str(n).len() - 1 ==> #[trigger] dec_str(n)[i] == dec_str(n / 10)[i]);
    }
}

proof fn lemma_parse_dec_rec_push(t: Seq<char>, c: char, acc: u64, v: u64)
    requires
        parse_dec_rec(t, acc) == Some(v),
        is_digit(c),
        v * 10 + digit_val(c) <= u64::MAX,
    ensures
        parse_dec_rec(t.push(c), acc) == Some((v * 10 + digit_val(c)) as u64),
    decreases t.len(),
{
    if t.len() == 0 {
        assert(acc == v);
        assert(t.push(c)[0] == c);
        assert(t.push(c).drop_first() =~= Seq::<char>::empty());
        assert(parse_dec_rec(t.push(c), acc) == parse_dec_rec(
            Seq::<char>::empty(),
            (v * 10 + digit_val(c)) as u64,
        ));
    } else {
        assert(is_digit(t[0]) && acc * 10 + digit_val(t[0]) <= u64::MAX);
        let acc2 = (acc * 10 + digit_val(t[0])) as u64;
        assert(parse_dec_rec(t, acc) == parse_dec_rec(t.drop_first(), acc2));
        assert(t.push(c)[0] == t[0]);
        assert(t.push(c).drop_first() =~= t.drop_first().push(c));
        lemma_parse_dec_rec_push(t.drop_first(), c, acc2, v);
        assert(parse_dec_rec(t.push(c), acc) == parse_dec_rec(t.drop_first().push(c), acc2));
    }
}

/// The decimal codec round-trips: the numeral of `n` reads back as `n`.
pub proof fn lemma_dec_round_trip(n: u64)
    ensures
        parse_dec(dec_str(n as int)) == Some(n),
    decreases n,
{
    if n < 10 {
        reveal_with_fuel(parse_dec_rec, 2);
        let c = digit_char(n as int);
        assert(is_digit(c) && digit_val(c) == n as int);
        assert(dec_str(n as int) =~= seq![c]);
        assert(seq![c].drop_first() =~= Seq::<char>::empty());
    } else {
        lemma_dec_round_trip(n / 10);
        lemma_dec_str_digits(n as int / 10);
        let c = digit_char(n as int % 10);
        assert(is_digit(c) && digit_val(c) == n as int % 10);
        assert((n / 10) * 10 + digit_val(c) == n as int);
        lemma_parse_dec_rec_push(dec_str(n as int / 10), c, 0, n / 10);
    }
}

/// The numeral of `n`, as characters.
pub fn format_u64(n: u64) -> (r: Vec<char>)
    ensures
        r@ == dec_str(n as int),
{
    let mut r: Vec<char> = Vec::new();
    push_dec(n, &mut r);
    proof {
        assert(r@ =~= dec_str(n as int));
    }
    r
}

fn push_dec(n: u64, out: &mut Vec<char>)
    ensures
        final(out)@ == old(out)@ + dec_str(n as int),
    decreases n,
{
    if n < 10 {
        out.push((48 + n as u8) as char);
        proof {
            assert(final(out)@ =~= old(out)@ + dec_str(n as int));
        }
    } else {
        push_dec(n / 10, out);
        out.push((48 + (n % 10) as u8) as char);
        proof {
            assert(final(out)@ =~= old(out)@ + dec_str(n as int));
        }
    }
}

/// The value of the numeral `t`, when `t` is one.
pub fn parse_u64(t: &Vec<char>) -> (r: Option<u64>)
    ensures
        r == parse_dec(t@),
{
    if t.len() == 0 {
        return None;
    }
    let mut acc: u64 = 0;
    let mut i: usize = 0;
    proof {
        assert(t@.skip(0) =~= t@);
    }
    while i < t.len()
        invariant
            i <= t@.len(),
            parse_dec_rec(t@, 0) == parse_dec_rec(t@.skip(i as int), acc),
        decreases t@.len() - i,
    {
        let c = t[i];
        let cv = c as u32;
        if cv < 48 || cv > 57 {
            proof {
                assert(t@.skip(i as int)[0] == c);
                assert(!is_digit(c));
            }
            return None;
        }
        let d: u64 = (cv - 48) as u64;
        proof {
            assert(t@.skip(i as int)[0] == c);
            assert(is_digit(c) && digit_val(c) == d as int);
        }
        if acc > (u64::MAX - d) / 10 {
            proof {
                assert(acc * 10 + d > u64::MAX) by (nonlinear_arith)
                    requires
                        acc > (u64::MAX - d) / 10,
                        d <= 9,
                {}
            }
            return None;
        }
        proof {
            assert(acc * 10 + d <= u64::MAX) by (nonlinear_arith)
                requires
                    acc <= (u64::MAX - d) / 10,
                    d <= 9,
            {}
            assert(t@.skip(i as int).drop_first() =~= t@.skip(i as int + 1));
        }
        acc = acc * 10 + d;
        i += 1;
    }
    proof {
        assert(t@.skip(t@.len() as int) =~= Seq::<char>::empty());
    }
    Some(acc)
}

} // verus!
