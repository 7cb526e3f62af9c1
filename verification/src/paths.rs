//! Path handling: a path is interpreted as the sequence of its nonempty
//! `/`-separated segments, so repeated and trailing slashes carry no meaning.
use vstd::prelude::*;
use crate::strutil::{first_index_of, str_find_from, join_strings, join_with};

verus! {

/// The runs of characters between `/` separators, empty runs kept.
pub open spec fn raw_segments(s: Seq<char>) -> Seq<Seq<char>>
    decreases s.len(),
{
    let i = first_index_of(s, '/');
    if 0 <= i < s.len() {
        seq![s.take(i)] + raw_segments(s.skip(i + 1))
    } else {
        seq![s]
    }
}

/// The canonical reading of a path: its nonempty segments, in order.
/// The root path `/` (and any run of slashes) canonicalizes to the empty
/// sequence.
pub open spec fn canon_segments(s: Seq<char>) -> Seq<Seq<char>> {
    raw_segments(s).filter(|seg: Seq<char>| seg.len() > 0)
}

proof fn lemma_filter_singleton(x: Seq<char>, p: spec_fn(Seq<char>) -> bool)
    ensures
        seq![x].filter(p) == if p(x) {
            seq![x]
        } else {
            Seq::<Seq<char>>::empty()
        },
{
    reveal_with_fuel(Seq::filter, 2);
    let s = seq![x];
    let e = Seq::<Seq<char>>::empty();
    assert(s.drop_last() =~= e);
    assert(e.filter(p) == e);
    assert(s.len() == 1 && s.last() == x);
    assert(s.filter(p) == if p(x) {
        s.drop_last().filter(p).push(x)
    } else {
        s.drop_last().filter(p)
    });
    if p(x) {
        assert(e.push(x) =~= seq![x]);
    }
}

/// Splits a path into its canonical segments.
pub fn split_path(s: &str) -> (r: Vec<String>)
    ensures
        r.deep_view() == canon_segments(s@),
{
    broadcast use vstd::prelude::Seq::filter_distributes_over_add;

    let n = s.unicode_len();
    let mut done: Vec<String> = Vec::new();
    let mut pos: usize = 0;
    proof {
        assert(done.deep_view() =~= Seq::<Seq<char>>::empty());
        if n == 0 {
            let t = s@.skip(0);
            assert(t =~= s@);
            assert(raw_segments(s@) == seq![s@]);
            lemma_filter_singleton(s@, |seg: Seq<char>| seg.len() > 0);
            assert(canon_segments(s@) =~= done.deep_view() + canon_segments(s@.skip(pos as int)));
        } else {
            assert(s@.skip(0) =~= s@);
            assert(canon_segments(s@) =~= done.deep_view() + canon_segments(s@.skip(pos as int)));
        }
    }
    while pos < n
        invariant
            0 <= pos <= n,
            n == s@.len(),
            canon_segments(s@) == done.deep_view() + canon_segments(s@.skip(pos as int)),
        decreases n - pos,
    {
        let ghost pre_done = done.deep_view();
        let i = str_find_from(s, pos, '/');
        if i > pos {
            let seg = s.substring_char(pos, i);
            let seg_string = seg.to_owned();
            done.push(seg_string);
            proof {
                assert(done.deep_view() =~= pre_done.push(s@.subrange(pos as int, i as int)));
            }
        }
        proof {
            let t = s@.skip(pos as int);
            let fi = i - pos;
            let pne = |seg: Seq<char>| seg.len() > 0;
            assert(t.len() == n - pos);
            if i < n {
                assert(fi < t.len());
                assert(raw_segments(t) == seq![t.take(fi)] + raw_segments(t.skip(fi + 1)));
                assert(canon_segments(t) == seq![t.take(fi)].filter(pne) + canon_segments(
                    t.skip(fi + 1),
                ));
                lemma_filter_singleton(t.take(fi), pne);
                assert(t.take(fi) =~= s@.subrange(pos as int, i as int));
                assert(t.skip(fi + 1) =~= s@.skip(i + 1));
                if i > pos {
                    assert(pne(t.take(fi)));
                    assert(pre_done.push(t.take(fi)) + canon_segments(s@.skip(i + 1)) =~= pre_done
                        + canon_segments(t));
                } else {
                    assert(!pne(t.take(fi)));
                    assert(seq![t.take(fi)].filter(pne) =~= Seq::<Seq<char>>::empty());
                    assert(Seq::<Seq<char>>::empty() + canon_segments(s@.skip(i + 1))
                        =~= canon_segments(s@.skip(i + 1)));
                }
            } else {
                assert(fi == t.len());
                assert(!(0 <= first_index_of(t, '/') < t.len())) by {
                    crate::strutil::lemma_first_index_of(t, '/');
                    if first_index_of(t, '/') < t.len() {
                        assert(t[first_index_of(t, '/')] == s@[first_index_of(t, '/') + pos]);
                    }
                }
                assert(raw_segments(t) == seq![t]);
                lemma_filter_singleton(t, pne);
                assert(t =~= s@.subrange(pos as int, i as int));
                assert(t.len() > 0);
                assert(pre_done.push(t) + canon_segments(s@.skip(n as int)) =~= pre_done + seq![t]
                    + canon_segments(s@.skip(n as int)));
                assert(s@.skip(n as int) =~= Seq::<char>::empty());
                assert(raw_segments(Seq::<char>::empty()) == seq![Seq::<char>::empty()]);
                lemma_filter_singleton(Seq::<char>::empty(), pne);
                assert(seq![t].filter(pne) =~= seq![t]);
                assert(canon_segments(t) =~= seq![t] + canon_segments(s@.skip(n as int)));
            }
        }
        if i < n {
            pos = i + 1;
        } else {
            pos = n;
        }
    }
    proof {
        let t = s@.skip(pos as int);
        assert(t =~= Seq::<char>::empty());
        assert(raw_segments(t) == seq![t]);
        lemma_filter_singleton(t, |seg: Seq<char>| seg.len() > 0);
        assert(canon_segments(s@) =~= done.deep_view());
    }
    done
}

/// Renders canonical segments back as an absolute path string.
pub fn render_path(segs: &Vec<String>) -> (r: String)
    ensures
        r@ == seq!['/'] + join_with(segs.deep_view(), seq!['/']),
{
    proof {
        reveal_strlit("/");
    }
    let mut r = String::new();
    r.append("/");
    let joined = join_strings(segs, "/");
    r.append(joined.as_str());
    proof {
        assert(("/")@ =~= seq!['/']);
        assert(r@ =~= seq!['/'] + join_with(segs.deep_view(), seq!['/']));
    }
    r
}

} // verus!
