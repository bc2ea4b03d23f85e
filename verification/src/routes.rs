//! URL path normalization and the route table.
//!
//! A target is split at every slash; empty segments and the literal
//! segments `.` and `..` are dropped; what remains is rejoined with a
//! single slash before each segment, and an empty result becomes `/`.
//! The route table maps such normalized paths to file paths.

use vstd::prelude::*;
use vstd::seq_lib::group_seq_properties;

use crate::text::push_char;

verus! {

broadcast use group_seq_properties;

/// The segments of a path, split at every slash; the empty path has one
/// empty segment, and `n` slashes separate `n + 1` segments.
pub open spec fn segs(s: Seq<char>) -> Seq<Seq<char>>
    decreases s.len(),
{
    if s.len() == 0 {
        seq![Seq::<char>::empty()]
    } else if s[0] == '/' {
        seq![Seq::<char>::empty()] + segs(s.drop_first())
    } else {
        seq![seq![s[0]] + segs(s.drop_first())[0]] + segs(s.drop_first()).drop_first()
    }
}

/// Splitting always yields at least one segment.
pub proof fn lemma_segs_len(s: Seq<char>)
    ensures
        segs(s).len() >= 1,
    decreases s.len(),
{
    if s.len() > 0 {
        lemma_segs_len(s.drop_first());
    }
}

/// Putting a slash at the end opens a new empty segment.
pub proof fn lemma_segs_push_slash(t: Seq<char>)
    ensures
        segs(t.push('/')) == segs(t).push(Seq::<char>::empty()),
    decreases t.len(),
{
    lemma_segs_len(t);
    if t.len() == 0 {
        assert(t.push('/') =~= seq!['/']);
        assert(t.push('/').drop_first() =~= Seq::<char>::empty());
        assert(segs(t.push('/')) =~~= segs(t).push(Seq::<char>::empty()));
    } else {
        let td = t.drop_first();
        lemma_segs_len(td);
        lemma_segs_push_slash(td);
        assert(t.push('/').drop_first() =~= td.push('/'));
        assert(t.push('/')[0] == t[0]);
        if t[0] == '/' {
            assert(segs(t.push('/')) == seq![Seq::<char>::empty()] + segs(td).push(
                Seq::<char>::empty(),
            ));
            assert(segs(t.push('/')) =~~= segs(t).push(Seq::<char>::empty()));
        } else {
            assert(segs(td.push('/'))[0] == segs(td)[0]);
            assert(segs(td.push('/')).drop_first() =~~= segs(td).drop_first().push(
                Seq::<char>::empty(),
            ));
            assert(segs(t.push('/')) =~~= segs(t).push(Seq::<char>::empty()));
        }
    }
}

/// Putting any other character at the end extends the last segment.
pub proof fn lemma_segs_push_char(t: Seq<char>, c: char)
    requires
        c != '/',
    ensures
        segs(t.push(c)) == segs(t).update(segs(t).len() - 1, segs(t).last().push(c)),
    decreases t.len(),
{
    lemma_segs_len(t);
    if t.len() == 0 {
        assert(t.push(c) =~= seq![c]);
        assert(t.push(c).drop_first() =~= Seq::<char>::empty());
        assert(seq![c] + segs(Seq::<char>::empty())[0] =~= Seq::<char>::empty().push(c));
        assert(segs(t.push(c)) =~~= segs(t).update(segs(t).len() - 1, segs(t).last().push(c)));
    } else {
        let td = t.drop_first();
        lemma_segs_len(td);
        lemma_segs_push_char(td, c);
        assert(t.push(c).drop_first() =~= td.push(c));
        assert(t.push(c)[0] == t[0]);
        let u = segs(td).update(segs(td).len() - 1, segs(td).last().push(c));
        if t[0] == '/' {
            assert(segs(t.push(c)) == seq![Seq::<char>::empty()] + u);
            assert(segs(t) == seq![Seq::<char>::empty()] + segs(td));
            assert(segs(t).last() == segs(td).last());
            assert(segs(t.push(c)) =~~= segs(t).update(segs(t).len() - 1, segs(t).last().push(c)));
        } else {
            assert(segs(t.push(c)) == seq![seq![t[0]] + u[0]] + u.drop_first());
            if segs(td).len() == 1 {
                assert(u[0] == segs(td)[0].push(c));
                assert(u.drop_first() =~~= segs(td).drop_first());
                assert(seq![t[0]] + segs(td)[0].push(c) =~= (seq![t[0]] + segs(td)[0]).push(c));
                assert(segs(t).len() == 1);
                assert(segs(t).last() == seq![t[0]] + segs(td)[0]);
                assert(segs(t.push(c)) =~~= segs(t).update(
                    segs(t).len() - 1,
                    segs(t).last().push(c),
                ));
            } else {
                assert(u[0] == segs(td)[0]);
                assert(u.drop_first() =~~= segs(td).drop_first().update(
                    segs(td).len() - 2,
                    segs(td).last().push(c),
                ));
                assert(segs(t).last() == segs(td).last());
                assert(segs(t.push(c)) =~~= segs(t).update(
                    segs(t).len() - 1,
                    segs(t).last().push(c),
                ));
            }
        }
    }
}

/// Splits a path at every slash.
pub fn split_segments(s: &str) -> (v: Vec<String>)
    ensures
        v.deep_view() == segs(s@),
{
    let n: usize = s.unicode_len();
    let mut v: Vec<String> = Vec::new();
    let mut cur = String::new();
    proof {
        assert(s@.subrange(0, 0) =~= Seq::<char>::empty());
        assert(v.deep_view().push(cur@) =~~= segs(s@.subrange(0, 0)));
    }
    let mut i: usize = 0;
    while i < n
        invariant
            i <= n,
            n == s@.len(),
            v.deep_view().push(cur@) == segs(s@.subrange(0, i as int)),
        decreases n - i,
    {
        let ghost p = s@.subrange(0, i as int);
        let c = s.get_char(i);
        proof {
            assert(s@.subrange(0, i + 1) =~= p.push(s@[i as int]));
        }
        if c == '/' {
            proof {
                lemma_segs_push_slash(p);
            }
            let done = cur;
            v.push(done);
            cur = String::new();
            proof {
                assert(v.deep_view().push(cur@) =~~= segs(s@.subrange(0, i + 1)));
            }
        } else {
            proof {
                lemma_segs_push_char(p, c);
                lemma_segs_len(p);
            }
            push_char(&mut cur, c);
            proof {
                assert(v.deep_view().push(cur@) =~~= segs(s@.subrange(0, i + 1)));
            }
        }
        i = i + 1;
    }
    proof {
        assert(s@.subrange(0, n as int) =~= s@);
    }
    v.push(cur);
    proof {
        assert(v.deep_view() =~~= segs(s@));
    }
    v
}

/// Whether a segment survives normalization: it is dropped when empty or
/// when it is the literal `.` or `..`.
pub open spec fn keep_seg(seg: Seq<char>) -> bool {
    seg.len() > 0 && seg != seq!['.'] && seg != seq!['.', '.']
}

/// The segments that survive normalization, in order.
pub open spec fn kept_of(ss: Seq<Seq<char>>) -> Seq<Seq<char>> {
    ss.filter(|seg: Seq<char>| keep_seg(seg))
}

/// The surviving segments of a path.
pub open spec fn kept_segs(s: Seq<char>) -> Seq<Seq<char>> {
    kept_of(segs(s))
}

/// Segments rejoined with a single slash before each.
pub open spec fn rendered(ss: Seq<Seq<char>>) -> Seq<char> {
    ss.map_values(|seg: Seq<char>| seq!['/'] + seg).flatten()
}

/// The normalized form of a path: its surviving segments rejoined, or `/`
/// when none survive.
pub open spec fn normalize(s: Seq<char>) -> Seq<char> {
    if kept_segs(s).len() == 0 {
        seq!['/']
    } else {
        rendered(kept_segs(s))
    }
}

/// Filtering one more segment keeps it exactly when it survives.
pub proof fn lemma_kept_push(ss: Seq<Seq<char>>, x: Seq<char>)
    ensures
        kept_of(ss.push(x)) == (if keep_seg(x) {
            kept_of(ss).push(x)
        } else {
            kept_of(ss)
        }),
{
    reveal(Seq::filter);
    assert(ss.push(x).drop_last() =~~= ss);
}

/// Nothing survives from an empty list, and it renders as nothing.
pub proof fn lemma_kept_rendered_empty()
    ensures
        kept_of(Seq::<Seq<char>>::empty()) == Seq::<Seq<char>>::empty(),
        rendered(Seq::<Seq<char>>::empty()) == Seq::<char>::empty(),
{
    reveal(Seq::filter);
    assert(Seq::<Seq<char>>::empty().map_values(|seg: Seq<char>| seq!['/'] + seg)
        =~~= Seq::<Seq<char>>::empty());
}

/// Rendering one more segment appends a slash and that segment.
pub proof fn lemma_rendered_push(ss: Seq<Seq<char>>, x: Seq<char>)
    ensures
        rendered(ss.push(x)) == rendered(ss) + (seq!['/'] + x),
{
    let f = |seg: Seq<char>| seq!['/'] + seg;
    let m = ss.map_values(f);
    let a = seq!['/'] + x;
    assert(ss.push(x).map_values(f) =~~= m.push(a));
    m.push(a).lemma_flatten_and_flatten_alt_are_equivalent();
    m.lemma_flatten_and_flatten_alt_are_equivalent();
    assert(m.push(a).drop_last() =~~= m);
    assert(m.push(a).flatten_alt() == m.flatten_alt().add(a));
}

/// A nonempty segment list renders as nonempty text.
pub proof fn lemma_rendered_len(ss: Seq<Seq<char>>)
    requires
        ss.len() > 0,
    ensures
        rendered(ss).len() > 0,
    decreases ss.len(),
{
    lemma_rendered_push(ss.drop_last(), ss.last());
    assert(ss.drop_last().push(ss.last()) =~~= ss);
}

/// Whether a segment survives normalization.
pub fn keep_segment(seg: &String) -> (b: bool)
    ensures
        b == keep_seg(seg@),
{
    proof {
        reveal_strlit(".");
        reveal_strlit("..");
        assert("."@ =~= seq!['.']);
        assert(".."@ =~= seq!['.', '.']);
    }
    if seg.unicode_len() == 0 {
        false
    } else if crate::text::str_eq(seg.as_str(), ".") {
        false
    } else if crate::text::str_eq(seg.as_str(), "..") {
        false
    } else {
        true
    }
}

/// Normalizes a route: empty, `.` and `..` segments are dropped, the rest
/// are rejoined with single slashes, and an empty result becomes `/`.
pub fn clean_route(route: String) -> (r: String)
    ensures
        r@ == normalize(route@),
{
    let segments = split_segments(route.as_str());
    let ghost sv = segments.deep_view();
    let n: usize = segments.len();
    let mut out = String::new();
    proof {
        assert(sv.take(0) =~= Seq::<Seq<char>>::empty());
        lemma_kept_rendered_empty();
        assert(out@ =~= rendered(kept_of(sv.take(0))));
    }
    let mut i: usize = 0;
    while i < n
        invariant
            i <= n,
            n == sv.len(),
            n == segments@.len(),
            sv == segments.deep_view(),
            out@ == rendered(kept_of(sv.take(i as int))),
        decreases n - i,
    {
        proof {
            assert(sv[i as int] == segments@[i as int]@);
            assert(sv.take(i + 1) =~~= sv.take(i as int).push(sv[i as int]));
            lemma_kept_push(sv.take(i as int), sv[i as int]);
        }
        if keep_segment(&segments[i]) {
            out.append("/");
            out.append(segments[i].as_str());
            proof {
                reveal_strlit("/");
                assert("/"@ =~= seq!['/']);
                lemma_rendered_push(kept_of(sv.take(i as int)), sv[i as int]);
                assert(out@ =~= rendered(kept_of(sv.take(i + 1))));
            }
        }
        i = i + 1;
    }
    proof {
        assert(sv.take(n as int) =~~= sv);
    }
    if out.unicode_len() == 0 {
        proof {
            if kept_segs(route@).len() > 0 {
                lemma_rendered_len(kept_segs(route@));
            }
        }
        let mut slash = String::new();
        push_char(&mut slash, '/');
        proof {
            assert(slash@ =~= normalize(route@));
        }
        slash
    } else {
        proof {
            if kept_segs(route@).len() == 0 {
                assert(kept_segs(route@) =~~= Seq::<Seq<char>>::empty());
                lemma_kept_rendered_empty();
            }
        }
        out
    }
}

/// Whether a segment is free of slashes, as every split segment is.
pub open spec fn no_slash(seg: Seq<char>) -> bool {
    forall|j: int| 0 <= j < seg.len() ==> seg[j] != '/'
}

/// No segment produced by splitting contains a slash.
pub proof fn lemma_segs_no_slash(s: Seq<char>)
    ensures
        forall|k: int| 0 <= k < segs(s).len() ==> no_slash(#[trigger] segs(s)[k]),
    decreases s.len(),
{
    if s.len() == 0 {
        assert(no_slash(Seq::<char>::empty()));
    } else {
        let sd = s.drop_first();
        lemma_segs_no_slash(sd);
        lemma_segs_len(sd);
        if s[0] == '/' {
            assert forall|k: int| 0 <= k < segs(s).len() implies no_slash(#[trigger] segs(s)[k]) by {
                if k == 0 {
                    assert(no_slash(Seq::<char>::empty()));
                } else {
                    assert(segs(s)[k] == segs(sd)[k - 1]);
                }
            }
        } else {
            assert forall|k: int| 0 <= k < segs(s).len() implies no_slash(#[trigger] segs(s)[k]) by {
                if k == 0 {
                    assert(segs(s)[0] == seq![s[0]] + segs(sd)[0]);
                    assert(no_slash(segs(sd)[0]));
                    assert forall|j: int| 0 <= j < segs(s)[0].len() implies segs(s)[0][j]
                        != '/' by {
                        if j > 0 {
                            assert(segs(s)[0][j] == segs(sd)[0][j - 1]);
                        }
                    }
                } else {
                    assert(segs(s)[k] == segs(sd)[k]);
                }
            }
        }
    }
}

/// A slash-free text splits as one segment: itself.
pub proof fn lemma_segs_single(x: Seq<char>)
    requires
        no_slash(x),
    ensures
        segs(x) == seq![x],
    decreases x.len(),
{
    if x.len() > 0 {
        lemma_segs_single(x.drop_first());
        assert(seq![x[0]] + x.drop_first() =~= x);
        assert(segs(x) =~~= seq![x]);
    }
}

/// Splitting cuts exactly at a joining slash.
pub proof fn lemma_segs_concat_slash(a: Seq<char>, b: Seq<char>)
    ensures
        segs(a + seq!['/'] + b) == segs(a) + segs(b),
    decreases a.len(),
{
    let s = a + seq!['/'] + b;
    if a.len() == 0 {
        assert(s =~= seq!['/'] + b);
        assert(s[0] == '/');
        assert(s.drop_first() =~= b);
        assert(segs(s) =~~= segs(a) + segs(b));
    } else {
        lemma_segs_concat_slash(a.drop_first(), b);
        lemma_segs_len(a.drop_first());
        assert(s[0] == a[0]);
        assert(s.drop_first() =~= a.drop_first() + seq!['/'] + b);
        if a[0] == '/' {
            assert(segs(s) =~~= segs(a) + segs(b));
        } else {
            assert((segs(a.drop_first()) + segs(b))[0] == segs(a.drop_first())[0]);
            assert((segs(a.drop_first()) + segs(b)).drop_first() =~~= segs(
                a.drop_first(),
            ).drop_first() + segs(b));
            assert(segs(s) =~~= segs(a) + segs(b));
        }
    }
}

/// Filtering distributes over concatenation of segment lists.
pub proof fn lemma_kept_concat(x: Seq<Seq<char>>, y: Seq<Seq<char>>)
    ensures
        kept_of(x + y) == kept_of(x) + kept_of(y),
    decreases y.len(),
{
    if y.len() == 0 {
        assert(x + y =~~= x);
        lemma_kept_rendered_empty();
        assert(kept_of(x) + kept_of(y) =~~= kept_of(x));
    } else {
        lemma_kept_concat(x, y.drop_last());
        lemma_kept_push(x + y.drop_last(), y.last());
        assert((x + y.drop_last()).push(y.last()) =~~= x + y);
        lemma_kept_push(y.drop_last(), y.last());
        assert(y.drop_last().push(y.last()) =~~= y);
        if keep_seg(y.last()) {
            assert(kept_of(x + y) =~~= kept_of(x) + kept_of(y));
        } else {
            assert(kept_of(x + y) =~~= kept_of(x) + kept_of(y));
        }
    }
}

/// A one-segment list keeps its segment exactly when it survives.
pub proof fn lemma_kept_single(x: Seq<char>)
    ensures
        kept_of(seq![x]) == (if keep_seg(x) {
            seq![x]
        } else {
            Seq::<Seq<char>>::empty()
        }),
{
    lemma_kept_rendered_empty();
    lemma_kept_push(Seq::<Seq<char>>::empty(), x);
    assert(Seq::<Seq<char>>::empty().push(x) =~~= seq![x]);
}

/// Redundant separators collapse: a doubled slash normalizes as a single
/// one, wherever it stands.
pub proof fn lemma_collapse_double_slash(a: Seq<char>, b: Seq<char>)
    ensures
        normalize(a + seq!['/', '/'] + b) == normalize(a + seq!['/'] + b),
{
    assert(a + seq!['/', '/'] + b =~= a + seq!['/'] + (seq!['/'] + b));
    lemma_segs_concat_slash(a, seq!['/'] + b);
    lemma_segs_concat_slash(a, b);
    assert((seq!['/'] + b).drop_first() =~= b);
    assert(segs(seq!['/'] + b) == seq![Seq::<char>::empty()] + segs(b));
    lemma_kept_concat(segs(a), seq![Seq::<char>::empty()] + segs(b));
    lemma_kept_concat(seq![Seq::<char>::empty()], segs(b));
    lemma_kept_single(Seq::<char>::empty());
    lemma_kept_concat(segs(a), segs(b));
    assert(kept_segs(a + seq!['/', '/'] + b) =~~= kept_segs(a + seq!['/'] + b));
}

/// A trailing slash changes nothing: the empty segment it opens is
/// dropped.
pub proof fn lemma_trailing_slash(a: Seq<char>)
    ensures
        normalize(a.push('/')) == normalize(a),
{
    lemma_segs_push_slash(a);
    lemma_kept_push(segs(a), Seq::<char>::empty());
}

/// Every surviving segment of a slash-free family stays slash-free.
pub proof fn lemma_kept_no_slash(ss: Seq<Seq<char>>)
    requires
        forall|k: int| 0 <= k < ss.len() ==> no_slash(#[trigger] ss[k]),
    ensures
        forall|k: int| 0 <= k < kept_of(ss).len() ==> no_slash(#[trigger] kept_of(ss)[k]),
    decreases ss.len(),
{
    if ss.len() == 0 {
        lemma_kept_rendered_empty();
    } else {
        let dl = ss.drop_last();
        lemma_kept_no_slash(dl);
        lemma_kept_push(dl, ss.last());
        assert(dl.push(ss.last()) =~~= ss);
        if keep_seg(ss.last()) {
            assert forall|k: int| 0 <= k < kept_of(ss).len() implies no_slash(
                #[trigger] kept_of(ss)[k],
            ) by {
                if k < kept_of(ss).len() - 1 {
                    assert(kept_of(ss)[k] == kept_of(dl)[k]);
                } else {
                    assert(kept_of(ss)[k] == ss.last());
                    assert(no_slash(ss[ss.len() - 1]));
                }
            }
        } else {
            assert(kept_of(ss) == kept_of(dl));
        }
    }
}

/// Every surviving segment survives the filter again.
pub proof fn lemma_kept_all_kept(ss: Seq<Seq<char>>)
    requires
        forall|k: int| 0 <= k < ss.len() ==> keep_seg(#[trigger] ss[k]),
    ensures
        kept_of(ss) == ss,
    decreases ss.len(),
{
    if ss.len() == 0 {
        lemma_kept_rendered_empty();
    } else {
        let dl = ss.drop_last();
        lemma_kept_all_kept(dl);
        lemma_kept_push(dl, ss.last());
        assert(keep_seg(ss[ss.len() - 1]));
        assert(dl.push(ss.last()) =~~= ss);
    }
}

/// Splitting rendered segments recovers them, behind one leading empty
/// segment for the leading slash.
#[verifier::rlimit(50)]
pub proof fn lemma_segs_rendered(ss: Seq<Seq<char>>)
    requires
        ss.len() > 0,
        forall|k: int| 0 <= k < ss.len() ==> no_slash(#[trigger] ss[k]),
    ensures
        segs(rendered(ss)) == seq![Seq::<char>::empty()] + ss,
    decreases ss.len(),
{
    let f = |seg: Seq<char>| seq!['/'] + seg;
    let m = ss.map_values(f);
    assert(m.first() == seq!['/'] + ss[0]);
    assert(m.drop_first() =~~= ss.drop_first().map_values(f));
    assert(rendered(ss) == (seq!['/'] + ss[0]) + rendered(ss.drop_first()));
    if ss.len() == 1 {
        assert(rendered(ss.drop_first()) == Seq::<char>::empty()) by {
            assert(ss.drop_first().map_values(f) =~~= Seq::<Seq<char>>::empty());
        }
        assert(rendered(ss) =~= seq!['/'] + ss[0]);
        assert((seq!['/'] + ss[0]).drop_first() =~= ss[0]);
        lemma_segs_single(ss[0]);
        assert(segs(rendered(ss)) =~~= seq![Seq::<char>::empty()] + ss);
    } else {
        let rest = ss.drop_first();
        lemma_segs_rendered(rest);
        lemma_rendered_len(rest);
        assert(rendered(rest)[0] == '/') by {
            assert(rest.map_values(f).first() == seq!['/'] + rest[0]);
            assert(rest.map_values(f).drop_first() =~~= rest.drop_first().map_values(f));
            assert(rendered(rest) == (seq!['/'] + rest[0]) + rendered(rest.drop_first()));
            assert((seq!['/'] + rest[0])[0] == '/');
        }
        let w = rendered(rest).drop_first();
        assert(rendered(rest) =~= seq!['/'] + w);
        assert(segs(rendered(rest)) == seq![Seq::<char>::empty()] + segs(w));
        assert(seq![Seq::<char>::empty()] + segs(w) == seq![Seq::<char>::empty()] + rest);
        assert((seq![Seq::<char>::empty()] + segs(w)).len() == (seq![Seq::<char>::empty()]
            + rest).len());
        assert(segs(w).len() == rest.len());
        assert forall|i: int| 0 <= i < rest.len() implies segs(w)[i] == rest[i] by {
            assert(segs(w)[i] == (seq![Seq::<char>::empty()] + segs(w))[i + 1]);
            assert(rest[i] == (seq![Seq::<char>::empty()] + rest)[i + 1]);
        }
        assert(segs(w) =~~= rest);
        assert(rendered(ss) =~= (seq!['/'] + ss[0]) + seq!['/'] + w);
        lemma_segs_concat_slash(seq!['/'] + ss[0], w);
        assert((seq!['/'] + ss[0]).drop_first() =~= ss[0]);
        assert(segs(seq!['/'] + ss[0]) == seq![Seq::<char>::empty()] + segs(ss[0]));
        lemma_segs_single(ss[0]);
        assert(segs(rendered(ss)) =~~= seq![Seq::<char>::empty()] + ss);
    }
}

/// Normalization is idempotent: a normalized path normalizes to itself.
pub proof fn lemma_normalize_idempotent(s: Seq<char>)
    ensures
        normalize(normalize(s)) == normalize(s),
{
    broadcast use vstd::seq_lib::group_filter_ensures;

    if kept_segs(s).len() == 0 {
        assert(normalize(s) == seq!['/']);
        assert(seq!['/'].drop_first() =~= Seq::<char>::empty());
        assert(segs(Seq::<char>::empty()) == seq![Seq::<char>::empty()]);
        assert(segs(seq!['/']) == seq![Seq::<char>::empty()] + seq![Seq::<char>::empty()]);
        lemma_kept_concat(seq![Seq::<char>::empty()], seq![Seq::<char>::empty()]);
        lemma_kept_single(Seq::<char>::empty());
        assert(kept_segs(seq!['/']).len() == 0);
    } else {
        let kept = kept_segs(s);
        lemma_segs_no_slash(s);
        lemma_kept_no_slash(segs(s));
        assert forall|k: int| 0 <= k < kept.len() implies keep_seg(#[trigger] kept[k]) by {
            segs(s).lemma_filter_pred(|seg: Seq<char>| keep_seg(seg), k);
        }
        lemma_segs_rendered(kept);
        lemma_kept_concat(seq![Seq::<char>::empty()], kept);
        lemma_kept_single(Seq::<char>::empty());
        lemma_kept_all_kept(kept);
        assert(kept_segs(normalize(s)) =~~= kept);
    }
}

/// A normalized path is never empty and always starts with a slash.
pub proof fn lemma_normalize_rooted(s: Seq<char>)
    ensures
        normalize(s).len() >= 1,
        normalize(s)[0] == '/',
{
    let kept = kept_segs(s);
    if kept.len() > 0 {
        lemma_rendered_len(kept);
        let f = |seg: Seq<char>| seq!['/'] + seg;
        assert(kept.map_values(f).first() == seq!['/'] + kept[0]);
        assert(kept.map_values(f).drop_first() =~~= kept.drop_first().map_values(f));
        assert(rendered(kept) == (seq!['/'] + kept[0]) + rendered(kept.drop_first()));
        assert((seq!['/'] + kept[0])[0] == '/');
    }
}

/// The index of the last dot in a file name, or -1 when there is none.
pub open spec fn last_dot(s: Seq<char>) -> int
    decreases s.len(),
{
    if s.len() == 0 {
        -1
    } else if s.last() == '.' {
        s.len() - 1
    } else {
        last_dot(s.drop_last())
    }
}

/// Whether a file name ends in one of the extensions the table serves.
pub open spec fn eligible_ext(name: Seq<char>) -> bool {
    let d = last_dot(name);
    d >= 0 && {
        let ext = name.subrange(d + 1, name.len() as int);
        ext == "html"@ || ext == "css"@ || ext == "js"@
    }
}

/// The route a file registers under, or nothing when it is skipped:
/// only `html`, `css` and `js` files are served; `not_found.html` is
/// reserved as the fallback body; `index.html` and `page.html` stand for
/// their directory itself; everything else hangs under the directory's
/// prefix by name.
pub open spec fn spec_route_key(prefix: Seq<char>, name: Seq<char>) -> Option<Seq<char>> {
    if !eligible_ext(name) {
        None
    } else if name == "not_found.html"@ {
        None
    } else if name == "index.html"@ || name == "page.html"@ {
        Some(
            if prefix.len() == 0 {
                seq!['/']
            } else {
                prefix
            },
        )
    } else {
        Some(prefix + seq!['/'] + name)
    }
}

/// Decides where a directory entry belongs in the table, given the URL
/// prefix accumulated on the way down and the entry's file name.
pub fn route_key_for_file(prefix: &str, name: &str) -> (r: Option<String>)
    ensures
        match r {
            Some(k) => spec_route_key(prefix@, name@) == Some(k@),
            None => spec_route_key(prefix@, name@) is None,
        },
{
    let n: usize = name.unicode_len();
    proof {
        assert(name@.subrange(0, n as int) =~= name@);
    }
    let mut e: usize = n;
    while e > 0 && name.get_char(e - 1) != '.'
        invariant
            e <= n,
            n == name@.len(),
            last_dot(name@) == last_dot(name@.subrange(0, e as int)),
        decreases e,
    {
        proof {
            assert(name@.subrange(0, e as int).drop_last() =~= name@.subrange(0, e - 1));
        }
        e = e - 1;
    }
    if e == 0 {
        proof {
            assert(name@.subrange(0, 0) =~= Seq::<char>::empty());
            assert(last_dot(name@) == -1);
        }
        return None;
    }
    let d: usize = e - 1;
    proof {
        assert(name@[d as int] == '.');
        assert(name@.subrange(0, e as int).last() == '.');
        assert(last_dot(name@) == d as int);
    }
    let ext = name.substring_char(d + 1, n);
    let eligible = crate::text::str_eq(ext, "html") || crate::text::str_eq(ext, "css")
        || crate::text::str_eq(ext, "js");
    if !eligible {
        return None;
    }
    if crate::text::str_eq(name, "not_found.html") {
        return None;
    }
    if crate::text::str_eq(name, "index.html") || crate::text::str_eq(name, "page.html") {
        if prefix.unicode_len() == 0 {
            let mut root = String::new();
            push_char(&mut root, '/');
            proof {
                assert(root@ =~= seq!['/']);
            }
            Some(root)
        } else {
            Some(prefix.to_owned())
        }
    } else {
        let mut k = prefix.to_owned();
        k.append("/");
        k.append(name);
        proof {
            reveal_strlit("/");
            assert("/"@ =~= seq!['/']);
            assert(k@ =~= prefix@ + seq!['/'] + name@);
        }
        Some(k)
    }
}

/// The table a server serves from: an immutable mapping from normalized
/// URL path to file path, built once before connections are accepted.
pub struct RouteTable {
    map: crate::strmap::StrMap,
}

impl View for RouteTable {
    type V = crate::strmap::Entries;

    closed spec fn view(&self) -> crate::strmap::Entries {
        self.map@
    }
}

impl RouteTable {
    /// An empty table.
    pub fn new() -> (t: RouteTable)
        ensures
            t@ == Seq::<(Seq<char>, Seq<char>)>::empty(),
    {
        RouteTable { map: crate::strmap::StrMap::new() }
    }

    /// How many routes are registered.
    pub fn len(&self) -> (n: usize)
        ensures
            n == self@.len(),
    {
        self.map.len()
    }

    /// The route stored at position `i`.
    pub fn route_at(&self, i: usize) -> (r: &String)
        requires
            i < self@.len(),
        ensures
            r@ == self@[i as int].0,
    {
        self.map.key_at(i)
    }

    /// The file path stored at position `i`.
    pub fn file_at(&self, i: usize) -> (r: &String)
        requires
            i < self@.len(),
        ensures
            r@ == self@[i as int].1,
    {
        self.map.val_at(i)
    }

    /// Registers a file under a route; a later registration of the same
    /// route wins.
    pub fn insert(&mut self, route: String, file: String)
        ensures
            final(self)@ == crate::strmap::map_set(old(self)@, route@, file@),
    {
        self.map.set(route, file);
    }

    /// Looks a route up, returning a copy of its file path.
    pub fn get(&self, route: &str) -> (r: Option<String>)
        ensures
            match r {
                Some(f) => crate::strmap::map_has(self@, route@) && f@ == crate::strmap::map_val(
                    self@,
                    route@,
                ),
                None => !crate::strmap::map_has(self@, route@),
            },
    {
        self.map.get(route)
    }

    /// Whether a route is registered.
    pub fn contains(&self, route: &str) -> (b: bool)
        ensures
            b == crate::strmap::map_has(self@, route@),
    {
        self.map.contains(route)
    }
}

} // verus!
