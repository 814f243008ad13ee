//! Small verified byte-vector utilities.

use vstd::prelude::*;

verus! {

/// Byte-for-byte equality of two byte vectors.
pub fn bytes_eq(a: &Vec<u8>, b: &Vec<u8>) -> (r: bool)
    ensures
        r == (a@ == b@),
{
    if a.len() != b.len() {
        return false;
    }
    let mut i: usize = 0;
    while i < a.len()
        invariant
            i <= a.len(),
            a@.len() == b@.len(),
            forall|j: int| 0 <= j < i ==> a@[j] == b@[j],
        decreases a.len() - i,
    {
        if a[i] != b[i] {
            return false;
        }
        i = i + 1;
    }
    proof {
        assert(a@ =~= b@);
    }
    true
}

/// ASCII whitespace: space, tab, line feed, form feed, carriage return.
pub open spec fn is_space(b: u8) -> bool {
    b == 32 || b == 9 || b == 10 || b == 12 || b == 13
}

/// The sequence without its leading whitespace.
pub open spec fn trim_front(s: Seq<u8>) -> Seq<u8>
    decreases s.len(),
{
    if s.len() > 0 && is_space(s.first()) {
        trim_front(s.drop_first())
    } else {
        s
    }
}

/// The sequence without its trailing whitespace.
pub open spec fn trim_back(s: Seq<u8>) -> Seq<u8>
    decreases s.len(),
{
    if s.len() > 0 && is_space(s.last()) {
        trim_back(s.drop_last())
    } else {
        s
    }
}

/// The sequence without leading and trailing whitespace.
pub open spec fn spec_trim(s: Seq<u8>) -> Seq<u8> {
    trim_back(trim_front(s))
}

proof fn lemma_trim_front_skip(s: Seq<u8>, k: int)
    requires
        0 <= k <= s.len(),
        forall|j: int| 0 <= j < k ==> is_space(#[trigger] s[j]),
        k < s.len() ==> !is_space(s[k]),
    ensures
        trim_front(s) == s.skip(k),
    decreases k,
{
    if k == 0 {
        assert(s.skip(0) =~= s);
    } else {
        assert(is_space(s.first()));
        assert forall|j: int| 0 <= j < k - 1 implies is_space(#[trigger] s.drop_first()[j]) by {
            assert(s.drop_first()[j] == s[j + 1]);
        }
        assert(k - 1 < s.drop_first().len() ==> !is_space(s.drop_first()[k - 1]));
        lemma_trim_front_skip(s.drop_first(), k - 1);
        assert(s.drop_first().skip(k - 1) =~= s.skip(k));
    }
}

proof fn lemma_trim_back_take(s: Seq<u8>, k: int)
    requires
        0 <= k <= s.len(),
        forall|j: int| k <= j < s.len() ==> is_space(#[trigger] s[j]),
        k > 0 ==> !is_space(s[k - 1]),
    ensures
        trim_back(s) == s.take(k),
    decreases s.len() - k,
{
    if k == s.len() {
        if s.len() > 0 {
            assert(!is_space(s.last()));
        }
        assert(s.take(k) =~= s);
    } else {
        assert(is_space(s.last()));
        assert forall|j: int| k <= j < s.drop_last().len() implies is_space(
            #[trigger] s.drop_last()[j],
        ) by {
            assert(s.drop_last()[j] == s[j]);
        }
        lemma_trim_back_take(s.drop_last(), k);
        assert(s.drop_last().take(k) =~= s.take(k));
    }
}

/// A fresh copy of `v` with leading and trailing ASCII whitespace removed.
pub fn trim(v: &Vec<u8>) -> (r: Vec<u8>)
    ensures
        r@ == spec_trim(v@),
{
    let mut start: usize = 0;
    while start < v.len() && (v[start] == 32 || v[start] == 9 || v[start] == 10 || v[start] == 12
        || v[start] == 13)
        invariant
            start <= v@.len(),
            forall|j: int| 0 <= j < start ==> is_space(#[trigger] v@[j]),
        decreases v@.len() - start,
    {
        start = start + 1;
    }
    let mut end: usize = v.len();
    while end > start && (v[end - 1] == 32 || v[end - 1] == 9 || v[end - 1] == 10 || v[end - 1]
        == 12 || v[end - 1] == 13)
        invariant
            start <= end <= v@.len(),
            forall|j: int| 0 <= j < start ==> is_space(#[trigger] v@[j]),
            start < v@.len() ==> !is_space(v@[start as int]),
            forall|j: int| end <= j < v@.len() ==> is_space(#[trigger] v@[j]),
        decreases end,
    {
        end = end - 1;
    }
    let mut r: Vec<u8> = Vec::new();
    let mut i: usize = start;
    while i < end
        invariant
            start <= i <= end <= v@.len(),
            r@ == v@.subrange(start as int, i as int),
        decreases end - i,
    {
        r.push(v[i]);
        i = i + 1;
        proof {
            assert(v@.subrange(start as int, i as int) =~= v@.subrange(
                start as int,
                i - 1,
            ).push(v@[i - 1]));
        }
    }
    proof {
        lemma_trim_front_skip(v@, start as int);
        let sk = v@.skip(start as int);
        assert forall|j: int| (end - start) <= j < sk.len() implies is_space(#[trigger] sk[j]) by {
            assert(sk[j] == v@[start + j]);
        }
        if end > start {
            assert(!is_space(sk[end - start - 1])) by {
                assert(sk[end - start - 1] == v@[end - 1]);
            }
        }
        lemma_trim_back_take(sk, end - start);
        assert(sk.take(end - start) =~= v@.subrange(start as int, end as int));
    }
    r
}

/// The parts of `s` split at every occurrence of `sep`: always at least one
/// part, with the separators themselves dropped, and empty parts kept.
pub open spec fn spec_split(s: Seq<u8>, sep: u8) -> Seq<Seq<u8>>
    decreases s.len(),
{
    if s.len() == 0 {
        seq![Seq::<u8>::empty()]
    } else if s.first() == sep {
        seq![Seq::<u8>::empty()].add(spec_split(s.drop_first(), sep))
    } else {
        let rest = spec_split(s.drop_first(), sep);
        seq![seq![s.first()].add(rest.first())].add(rest.drop_first())
    }
}

pub proof fn lemma_split_nonempty(s: Seq<u8>, sep: u8)
    ensures
        spec_split(s, sep).len() >= 1,
    decreases s.len(),
{
    if s.len() > 0 {
        lemma_split_nonempty(s.drop_first(), sep);
    }
}

/// The views of the parts of an exec split.
pub open spec fn parts_view(parts: Seq<Vec<u8>>) -> Seq<Seq<u8>> {
    parts.map_values(|p: Vec<u8>| p@)
}

proof fn lemma_parts_view_push(prev: Seq<Vec<u8>>, cur: Seq<Vec<u8>>, p: Vec<u8>)
    requires
        cur == prev.push(p),
    ensures
        parts_view(cur) == parts_view(prev).push(p@),
{
    assert(parts_view(cur) =~= parts_view(prev).push(p@));
}

/// A split, before the first part is complete: the pending prefix joined onto
/// the first remaining part.
spec fn split_shift(parts: Seq<Seq<u8>>, prefix: Seq<u8>) -> Seq<Seq<u8>>
    recommends
        parts.len() >= 1,
{
    seq![prefix.add(parts.first())].add(parts.drop_first())
}

/// Splits `v` at every occurrence of `sep`, per `spec_split`.
pub fn split_bytes(v: &Vec<u8>, sep: u8) -> (r: Vec<Vec<u8>>)
    ensures
        parts_view(r@) == spec_split(v@, sep),
{
    let mut done: Vec<Vec<u8>> = Vec::new();
    let mut cur: Vec<u8> = Vec::new();
    let mut i: usize = 0;
    proof {
        assert(v@.skip(0) =~= v@);
        assert(parts_view(done@) =~= Seq::<Seq<u8>>::empty());
        lemma_split_nonempty(v@, sep);
        assert(spec_split(v@, sep) =~~= parts_view(done@).add(
            split_shift(spec_split(v@.skip(0), sep), cur@),
        ));
    }
    while i < v.len()
        invariant
            i <= v@.len(),
            spec_split(v@, sep) == parts_view(done@).add(
                split_shift(spec_split(v@.skip(i as int), sep), cur@),
            ),
        decreases v@.len() - i,
    {
        let ghost rem = v@.skip(i as int);
        proof {
            assert(rem.len() > 0);
            assert(rem.first() == v@[i as int]);
            assert(rem.drop_first() =~= v@.skip(i + 1));
            lemma_split_nonempty(v@.skip(i + 1), sep);
        }
        if v[i] == sep {
            let ghost prev_done = done@;
            let ghost prev_cur = cur@;
            let part = cur;
            cur = Vec::new();
            done.push(part);
            proof {
                lemma_parts_view_push(prev_done, done@, done@.last());
                let rest = spec_split(v@.skip(i + 1), sep);
                assert(spec_split(rem, sep) == seq![Seq::<u8>::empty()].add(rest));
                assert(split_shift(seq![Seq::<u8>::empty()].add(rest), prev_cur) =~~= seq![
                    prev_cur,
                ].add(rest)) by {
                    assert(seq![Seq::<u8>::empty()].add(rest).first() == Seq::<u8>::empty());
                    assert(seq![Seq::<u8>::empty()].add(rest).drop_first() =~= rest);
                    assert(prev_cur.add(Seq::<u8>::empty()) =~= prev_cur);
                }
                assert(split_shift(rest, cur@) =~~= rest) by {
                    assert(cur@.add(rest.first()) =~= rest.first());
                    assert(seq![rest.first()].add(rest.drop_first()) =~= rest);
                }
                assert(spec_split(v@, sep) =~~= parts_view(done@).add(
                    split_shift(spec_split(v@.skip(i + 1), sep), cur@),
                ));
            }
        } else {
            let ghost prev_cur = cur@;
            cur.push(v[i]);
            proof {
                let rest = spec_split(v@.skip(i + 1), sep);
                assert(spec_split(rem, sep) == seq![seq![rem.first()].add(rest.first())].add(
                    rest.drop_first(),
                ));
                assert(split_shift(spec_split(rem, sep), prev_cur) =~~= split_shift(rest, cur@))
                    by {
                    assert(spec_split(rem, sep).first() == seq![rem.first()].add(rest.first()));
                    assert(spec_split(rem, sep).drop_first() =~= rest.drop_first());
                    assert(prev_cur.add(seq![rem.first()].add(rest.first())) =~= cur@.add(
                        rest.first(),
                    ));
                }
                assert(spec_split(v@, sep) =~~= parts_view(done@).add(
                    split_shift(spec_split(v@.skip(i + 1), sep), cur@),
                ));
            }
        }
        i = i + 1;
    }
    let ghost prev_done = done@;
    done.push(cur);
    proof {
        lemma_parts_view_push(prev_done, done@, done@.last());
        assert(v@.skip(i as int) =~= Seq::<u8>::empty());
        assert(spec_split(Seq::<u8>::empty(), sep) == seq![Seq::<u8>::empty()]);
        assert(split_shift(seq![Seq::<u8>::empty()], done@.last()@) =~~= seq![done@.last()@]) by {
            assert(done@.last()@.add(Seq::<u8>::empty()) =~= done@.last()@);
            assert(seq![Seq::<u8>::empty()].drop_first() =~= Seq::<Seq<u8>>::empty());
        }
        assert(parts_view(done@) =~~= parts_view(prev_done).add(seq![done@.last()@]));
        assert(parts_view(done@) =~~= spec_split(v@, sep));
    }
    done
}

/// A fresh copy of a byte vector.
pub fn clone_bytes(v: &Vec<u8>) -> (r: Vec<u8>)
    ensures
        r@ == v@,
{
    let mut r: Vec<u8> = Vec::new();
    let mut i: usize = 0;
    while i < v.len()
        invariant
            i <= v.len(),
            r@ == v@.take(i as int),
        decreases v.len() - i,
    {
        r.push(v[i]);
        i = i + 1;
        proof {
            assert(v@.take(i as int) =~= v@.take(i - 1).push(v@[i - 1]));
        }
    }
    proof {
        assert(v@.take(v@.len() as int) =~= v@);
    }
    r
}

} // verus!
