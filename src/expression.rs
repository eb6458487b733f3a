//! The grammar of interval expressions: five whitespace-separated fields, each `*` or a
//! comma-separated list of unsigned integers.
use crate::interval::{sorted, within};
use vstd::prelude::*;

verus! {

pub open spec fn is_space(b: u8) -> bool {
    b == 32 || (9 <= b && b <= 13)
}

pub open spec fn is_digit(b: u8) -> bool {
    48 <= b && b <= 57
}

/// The whitespace-separated words of `s`, in order.
pub open spec fn words(s: Seq<u8>) -> Seq<Seq<u8>>
    decreases s.len(),
{
    if s.len() == 0 {
        seq![]
    } else {
        let w = words(s.drop_last());
        let c = s.last();
        if is_space(c) {
            w
        } else if s.len() >= 2 && !is_space(s[s.len() - 2]) {
            w.update(w.len() - 1, w.last().push(c))
        } else {
            w.push(seq![c])
        }
    }
}

/// The comma-separated tokens of `w`, in order; there is always at least one.
pub open spec fn tokens(w: Seq<u8>) -> Seq<Seq<u8>>
    decreases w.len(),
{
    if w.len() == 0 {
        seq![seq![]]
    } else {
        let t = tokens(w.drop_last());
        if w.last() == 44 {
            t.push(seq![])
        } else {
            t.update(t.len() - 1, t.last().push(w.last()))
        }
    }
}

pub open spec fn all_digits(t: Seq<u8>) -> bool {
    forall|i: int| 0 <= i < t.len() ==> is_digit(#[trigger] t[i])
}

/// The decimal value of a string of digits.
pub open spec fn value(t: Seq<u8>) -> int
    decreases t.len(),
{
    if t.len() == 0 {
        0
    } else {
        value(t.drop_last()) * 10 + (t.last() - 48)
    }
}

pub open spec fn token_ok(t: Seq<u8>, lo: int, hi: int) -> bool {
    t.len() > 0 && all_digits(t) && lo <= value(t) <= hi
}

pub open spec fn star() -> Seq<u8> {
    seq![42u8]
}

/// A field is `*`, or a list of numbers each between `lo` and `hi`.
pub open spec fn field_ok(w: Seq<u8>, lo: int, hi: int) -> bool {
    w == star() || forall|k: int| 0 <= k < tokens(w).len() ==> token_ok(#[trigger] tokens(w)[k], lo, hi)
}

/// The numbers a field lists, in the order written; none for `*`.
pub open spec fn field_values(w: Seq<u8>) -> Seq<u32> {
    if w == star() {
        seq![]
    } else {
        tokens(w).map_values(|t: Seq<u8>| value(t) as u32)
    }
}

/// `v` holds the values of field `w`, in ascending order.
pub open spec fn field_matches(v: Seq<u32>, w: Seq<u8>) -> bool {
    sorted(v) && v.to_multiset() == field_values(w).to_multiset()
}

/// The tokens before the last one are numbers in range; the last so far holds only digits
/// and is not above `hi`.
pub open spec fn prefix_ok(p: Seq<u8>, lo: int, hi: int) -> bool {
    let t = tokens(p);
    &&& forall|k: int| 0 <= k < t.len() - 1 ==> token_ok(#[trigger] t[k], lo, hi)
    &&& all_digits(t.last())
    &&& value(t.last()) <= hi
}

pub open spec fn completed_values(p: Seq<u8>) -> Seq<u32> {
    tokens(p).drop_last().map_values(|t: Seq<u8>| value(t) as u32)
}

proof fn lemma_tokens_nonempty(w: Seq<u8>)
    ensures
        tokens(w).len() >= 1,
    decreases w.len(),
{
    if w.len() > 0 {
        lemma_tokens_nonempty(w.drop_last());
    }
}

proof fn lemma_value_nonneg(t: Seq<u8>)
    requires
        all_digits(t),
    ensures
        value(t) >= 0,
    decreases t.len(),
{
    if t.len() > 0 {
        assert(is_digit(t[t.len() - 1]));
        lemma_value_nonneg(t.drop_last());
    }
}

pub open spec fn views(v: Seq<Vec<u8>>) -> Seq<Seq<u8>> {
    v.map_values(|x: Vec<u8>| x@)
}

/// All five fields are well formed and within their ranges: minutes 0 to 59, hours 0 to
/// 23, days 1 to 31, months 1 to 12, weekdays 1 to 7.
pub open spec fn expression_ok(b: Seq<u8>) -> bool {
    let w = words(b);
    &&& w.len() == 5
    &&& field_ok(w[0], 0, 59)
    &&& field_ok(w[1], 0, 23)
    &&& field_ok(w[2], 1, 31)
    &&& field_ok(w[3], 1, 12)
    &&& field_ok(w[4], 1, 7)
}

/// The whitespace-separated words of `s`.
pub fn split_words(s: &[u8]) -> (r: Vec<Vec<u8>>)
    ensures
        views(r@) == words(s@),
{
    let mut done: Vec<Vec<u8>> = Vec::new();
    let mut current: Vec<u8> = Vec::new();
    let mut in_word = false;
    let mut i: usize = 0;
    proof {
        assert(s@.take(0) =~= seq![]);
        assert(views(done@) =~= seq![]);
    }
    while i < s.len()
        invariant
            i <= s@.len(),
            in_word == (i > 0 && !is_space(s@[i - 1])),
            words(s@.take(i as int)) == views(done@) + (if in_word {
                seq![current@]
            } else {
                seq![]
            }),
        decreases s@.len() - i,
    {
        let b = s[i];
        let ghost p = s@.take(i as int);
        let ghost q = s@.take(i as int + 1);
        let ghost before = views(done@);
        proof {
            assert(q.drop_last() =~= p);
            assert(q.last() == b);
        }
        if b == 32u8 || (9u8 <= b && b <= 13u8) {
            if in_word {
                done.push(current);
                current = Vec::new();
                proof {
                    assert(views(done@) =~= words(p));
                }
            } else {
                assert(words(p) =~= views(done@));
            }
            in_word = false;
            proof {
                assert(views(done@) + seq![] =~= views(done@));
            }
        } else {
            if in_word {
                let ghost old_cur = current@;
                current.push(b);
                proof {
                    assert(q.len() >= 2 && q[q.len() - 2] == s@[i - 1]);
                    assert(words(q) =~= before + seq![current@]);
                }
            } else {
                current = Vec::new();
                current.push(b);
                proof {
                    assert(words(p) =~= before);
                    assert(words(q) =~= before + seq![current@]);
                }
            }
            in_word = true;
        }
        i += 1;
    }
    proof {
        assert(s@.take(s@.len() as int) =~= s@);
    }
    if in_word {
        let ghost before = views(done@);
        done.push(current);
        assert(views(done@) =~= before + seq![current@]);
    } else {
        assert(views(done@) + seq![] =~= views(done@));
    }
    done
}

/// Inserts `x` into the ascending `v`, keeping it ascending.
fn insert_sorted(v: &mut Vec<u32>, x: u32, lo: u32, hi: u32)
    requires
        sorted(old(v)@),
        within(old(v)@, lo as int, hi as int),
        lo <= x <= hi,
    ensures
        sorted(final(v)@),
        within(final(v)@, lo as int, hi as int),
        final(v)@.to_multiset() == old(v)@.to_multiset().insert(x),
{
    let mut pos: usize = 0;
    while pos < v.len() && v[pos] <= x
        invariant
            pos <= v.len(),
            forall|j: int| 0 <= j < pos ==> v@[j] <= x,
        decreases v.len() - pos,
    {
        pos += 1;
    }
    let ghost before = v@;
    v.insert(pos, x);
    proof {
        vstd::seq_lib::to_multiset_insert(before, pos as int, x);
        assert(v@ == before.insert(pos as int, x));
        assert forall|i: int, j: int| 0 <= i < j < v@.len() implies v@[i] <= v@[j] by {
            if j < pos {
            } else if j == pos {
            } else if i < pos {
                assert(before[j - 1] >= before[pos as int]);
            } else if i == pos {
                assert(before[j - 1] >= before[pos as int]);
            }
        }
    }
}

/// The values of one field with bounds `lo` and `hi`, ascending, or `None` where the field
/// is neither `*` nor a list of numbers in range.
pub fn parse_field(w: &Vec<u8>, lo: u32, hi: u32) -> (r: Option<Vec<u32>>)
    requires
        lo <= hi <= 1000,
    ensures
        r is Some <==> field_ok(w@, lo as int, hi as int),
        r is Some ==> field_matches(r->0@, w@) && within(r->0@, lo as int, hi as int),
{
    if w.len() == 1 && w[0] == 42u8 {
        assert(w@ =~= star());
        let empty: Vec<u32> = Vec::new();
        assert(field_values(w@) =~= seq![]);
        return Some(empty);
    }
    assert(w@ != star());
    let mut vals: Vec<u32> = Vec::new();
    let mut ok = true;
    let mut cur: u32 = 0;
    let mut cur_len: usize = 0;
    let mut i: usize = 0;
    proof {
        assert(w@.take(0) =~= seq![]);
        assert(tokens(seq![]) =~= seq![seq![]]);
        assert(completed_values(w@.take(0)) =~= seq![]);
    }
    while i < w.len()
        invariant
            i <= w.len(),
            lo <= hi <= 1000,
            ok == prefix_ok(w@.take(i as int), lo as int, hi as int),
            ok ==> cur == value(tokens(w@.take(i as int)).last()),
            ok ==> cur <= hi,
            cur_len <= i,
            ok ==> cur_len == tokens(w@.take(i as int)).last().len(),
            ok ==> sorted(vals@) && within(vals@, lo as int, hi as int),
            ok ==> vals@.to_multiset() == completed_values(w@.take(i as int)).to_multiset(),
        decreases w.len() - i,
    {
        let b = w[i];
        let ghost p = w@.take(i as int);
        let ghost q = w@.take(i as int + 1);
        proof {
            assert(q.drop_last() =~= p);
            assert(q.last() == b);
            lemma_tokens_nonempty(p);
            lemma_tokens_nonempty(q);
        }
        let ghost tp = tokens(p);
        let ghost tq = tokens(q);
        if ok {
            if b == 44u8 {
                proof {
                    assert(tq == tp.push(seq![]));
                    assert(tq.drop_last() == tp);
                }
                if cur_len == 0 || cur < lo {
                    ok = false;
                    proof {
                        assert(!token_ok(tq[tq.len() - 2], lo as int, hi as int));
                    }
                } else {
                    insert_sorted(&mut vals, cur, lo, hi);
                    proof {
                        assert(completed_values(q) =~= completed_values(p).push(cur));
                        vstd::seq_lib::to_multiset_build(completed_values(p), cur);
                        assert forall|k: int| 0 <= k < tq.len() - 1 implies token_ok(
                            #[trigger] tq[k],
                            lo as int,
                            hi as int,
                        ) by {
                            assert(tq[k] == tp[k]);
                        }
                        assert(tq.last() =~= seq![]);
                    }
                    cur = 0;
                    cur_len = 0;
                }
            } else if 48u8 <= b && b <= 57u8 {
                let next = cur * 10 + (b - 48u8) as u32;
                proof {
                    assert(tq == tp.update(tp.len() - 1, tp.last().push(b)));
                    assert(tq.last() == tp.last().push(b));
                    assert(tq.last().drop_last() =~= tp.last());
                    assert(value(tq.last()) == next);
                    assert(tq.drop_last() =~= tp.drop_last());
                    assert(completed_values(q) =~= completed_values(p));
                }
                if next > hi {
                    ok = false;
                } else {
                    cur = next;
                    cur_len = cur_len + 1;
                    proof {
                        assert forall|j: int| 0 <= j < tq.last().len() implies is_digit(
                            #[trigger] tq.last()[j],
                        ) by {
                            if j < tp.last().len() {
                                assert(tq.last()[j] == tp.last()[j]);
                            }
                        }
                        assert forall|k: int| 0 <= k < tq.len() - 1 implies token_ok(
                            #[trigger] tq[k],
                            lo as int,
                            hi as int,
                        ) by {
                            assert(tq[k] == tp[k]);
                        }
                    }
                }
            } else {
                ok = false;
                proof {
                    assert(tq == tp.update(tp.len() - 1, tp.last().push(b)));
                    assert(tq.last()[tq.last().len() - 1] == b);
                }
            }
        } else {
            proof {
                lemma_prefix_fails_on(p, b, lo as int, hi as int);
                assert(q =~= p.push(b));
            }
        }
        i += 1;
    }
    proof {
        assert(w@.take(w@.len() as int) =~= w@);
        lemma_tokens_nonempty(w@);
    }
    let ghost t = tokens(w@);
    if ok && cur_len > 0 && cur >= lo {
        insert_sorted(&mut vals, cur, lo, hi);
        proof {
            assert(t =~= t.drop_last().push(t.last()));
            assert(field_values(w@) =~= completed_values(w@).push(cur));
            vstd::seq_lib::to_multiset_build(completed_values(w@), cur);
            assert forall|k: int| 0 <= k < t.len() implies token_ok(#[trigger] t[k], lo as int, hi as int) by {
                if k == t.len() - 1 {
                    lemma_value_nonneg(t.last());
                }
            }
        }
        Some(vals)
    } else {
        proof {
            if ok {
                assert(!token_ok(t[t.len() - 1], lo as int, hi as int));
            } else {
                lemma_prefix_fails_whole(w@, lo as int, hi as int);
            }
        }
        None
    }
}

/// Once a prefix fails, every longer one fails too.
proof fn lemma_prefix_fails_on(p: Seq<u8>, b: u8, lo: int, hi: int)
    requires
        !prefix_ok(p, lo, hi),
        0 <= lo,
    ensures
        !prefix_ok(p.push(b), lo, hi),
{
    let q = p.push(b);
    assert(q.drop_last() =~= p);
    lemma_tokens_nonempty(p);
    let tp = tokens(p);
    let tq = tokens(q);
    if b == 44 {
        assert(tq == tp.push(seq![]));
        if !(forall|k: int| 0 <= k < tp.len() - 1 ==> token_ok(#[trigger] tp[k], lo, hi)) {
            let k = choose|k: int| 0 <= k < tp.len() - 1 && !token_ok(#[trigger] tp[k], lo, hi);
            assert(tq[k] == tp[k]);
        } else {
            assert(tq[tp.len() - 1] == tp.last());
        }
    } else {
        let lq = tp.last().push(b);
        assert(tq == tp.update(tp.len() - 1, lq));
        if !(forall|k: int| 0 <= k < tp.len() - 1 ==> token_ok(#[trigger] tp[k], lo, hi)) {
            let k = choose|k: int| 0 <= k < tp.len() - 1 && !token_ok(#[trigger] tp[k], lo, hi);
            assert(tq[k] == tp[k]);
        } else if !all_digits(tp.last()) {
            let j = choose|j: int| 0 <= j < tp.last().len() && !is_digit(#[trigger] tp.last()[j]);
            assert(lq[j] == tp.last()[j]);
        } else if is_digit(b) {
            assert(lq.drop_last() =~= tp.last());
            lemma_value_nonneg(tp.last());
        } else {
            assert(lq[lq.len() - 1] == b);
        }
    }
}

proof fn lemma_prefix_fails_whole(w: Seq<u8>, lo: int, hi: int)
    requires
        0 <= lo,
        exists|i: int| 0 <= i <= w.len() && !prefix_ok(#[trigger] w.take(i), lo, hi),
    ensures
        !prefix_ok(w, lo, hi),
    decreases w.len(),
{
    let i = choose|i: int| 0 <= i <= w.len() && !prefix_ok(#[trigger] w.take(i), lo, hi);
    if i == w.len() {
        assert(w.take(i) =~= w);
    } else {
        let v = w.drop_last();
        assert(w.take(i) =~= v.take(i));
        lemma_prefix_fails_whole(v, lo, hi);
        assert(w =~= v.push(w.last()));
        lemma_prefix_fails_on(v, w.last(), lo, hi);
    }
}

} // verus!
