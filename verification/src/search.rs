use vstd::prelude::*;
use crate::model::{Pack, Sample, SampleLibrary, SampleType, SearchParams, SearchResult};
use crate::text::{
    chars_of, contains_sub, has_substring, lower, split_spaces, split_spaces_vec, subvec,
    to_lower_vec,
};

verus! {

/// Variant-only comparison between two type tags: payloads are ignored.
pub open spec fn same_variant(a: SampleType, b: SampleType) -> bool {
    a is Loop <==> b is Loop
}

/// The `i32` filter tempo reinterpreted as the unsigned value the tempo
/// comparisons are made on.
pub open spec fn tempo_as_u32(t: i32) -> u32 {
    if t >= 0 {
        t as u32
    } else {
        ((t as int + 0x1_0000_0000) as u32)
    }
}

/// The type gate: when a variant filter is present it must match the
/// sample's variant.
pub open spec fn spec_type_gate(q: SearchParams, s: Sample) -> bool {
    match q.sample_type {
        Some(f) => same_variant(f, s.sampletype),
        None => true,
    }
}

/// The tempo gate. It compares the query's own declared filter tempo —
/// never the candidate sample's tempo — against the declared bounds.
pub open spec fn spec_tempo_gate(q: SearchParams) -> bool {
    match q.sample_type {
        Some(SampleType::Loop(t)) => {
            &&& (q.min_tempo is Some ==> tempo_as_u32(t) <= q.min_tempo->0)
            &&& (q.max_tempo is Some ==> tempo_as_u32(t) >= q.max_tempo->0)
        },
        _ => true,
    }
}

/// Tokens as the engine prepares them: the free text lowercased, then
/// split on single space characters, empty fragments kept.
pub open spec fn spec_tokens(q: Seq<char>) -> Seq<Seq<char>> {
    split_spaces(lower(q))
}

/// A non-empty token scores one point when the lowercased path contains
/// its lowercased text, a leading dash included.
pub open spec fn token_matches(low_path: Seq<char>, t: Seq<char>) -> bool {
    t.len() > 0 && has_substring(low_path, lower(t))
}

/// A token beginning with the negation marker excludes the sample when
/// the lowercased path contains the token's text after the leading
/// dash, lowercased.
pub open spec fn token_excludes(low_path: Seq<char>, t: Seq<char>) -> bool {
    t.len() > 0 && t[0] == '-' && has_substring(low_path, lower(t).subrange(1, t.len() as int))
}

pub open spec fn spec_excluded(low_path: Seq<char>, tokens: Seq<Seq<char>>) -> bool {
    exists|k: int| 0 <= k < tokens.len() && token_excludes(low_path, #[trigger] tokens[k])
}

/// How many tokens match the lowercased path.
pub open spec fn spec_match_count(low_path: Seq<char>, tokens: Seq<Seq<char>>) -> int
    decreases tokens.len(),
{
    if tokens.len() == 0 {
        0
    } else {
        spec_match_count(low_path, tokens.drop_last()) + (if token_matches(low_path, tokens.last()) {
            1int
        } else {
            0int
        })
    }
}

/// The relevance score of one sample: 0 when a gate fails or any
/// negation token fires, else the number of matching tokens.
pub open spec fn spec_relevance(q: SearchParams, s: Sample, tokens: Seq<Seq<char>>) -> int {
    if !spec_type_gate(q, s) {
        0
    } else if !spec_tempo_gate(q) {
        0
    } else if spec_excluded(lower(s.path@), tokens) {
        0
    } else {
        spec_match_count(lower(s.path@), tokens)
    }
}

/// A pack takes part in a search unless a `pack_id` filter is present
/// and differs from the pack's name (exact, case-sensitive).
pub open spec fn pack_selected(q: SearchParams, p: Pack) -> bool {
    match q.pack_id {
        Some(pid) => p.meta.name@ == pid@,
        None => true,
    }
}

/// The scored candidates of one pack, in sample order: every sample
/// whose relevance is positive, paired with its score.
pub open spec fn sample_hits(q: SearchParams, samples: Seq<Sample>, tokens: Seq<Seq<char>>) -> Seq<
    (Sample, int),
>
    decreases samples.len(),
{
    if samples.len() == 0 {
        Seq::<(Sample, int)>::empty()
    } else {
        let rest = sample_hits(q, samples.drop_last(), tokens);
        let r = spec_relevance(q, samples.last(), tokens);
        if r > 0 {
            rest.push((samples.last(), r))
        } else {
            rest
        }
    }
}

/// The scored candidates of the whole library, in scan order over the
/// selected packs.
pub open spec fn lib_hits(q: SearchParams, packs: Seq<Pack>, tokens: Seq<Seq<char>>) -> Seq<
    (Sample, int),
>
    decreases packs.len(),
{
    if packs.len() == 0 {
        Seq::<(Sample, int)>::empty()
    } else {
        lib_hits(q, packs.drop_last(), tokens) + (if pack_selected(q, packs.last()) {
            sample_hits(q, packs.last().samples@, tokens)
        } else {
            Seq::<(Sample, int)>::empty()
        })
    }
}

/// Stable descending insertion by score: the new pair goes after every
/// pair with an equal or higher score.
pub open spec fn insert_desc(x: (Sample, int), s: Seq<(Sample, int)>) -> Seq<(Sample, int)>
    decreases s.len(),
{
    if s.len() == 0 {
        seq![x]
    } else if x.1 > s[0].1 {
        seq![x] + s
    } else {
        seq![s[0]] + insert_desc(x, s.subrange(1, s.len() as int))
    }
}

/// Stable sort by score descending: pairs are inserted in scan order,
/// so equal scores keep their scan order.
pub open spec fn sort_desc(s: Seq<(Sample, int)>) -> Seq<(Sample, int)>
    decreases s.len(),
{
    if s.len() == 0 {
        Seq::<(Sample, int)>::empty()
    } else {
        insert_desc(s.last(), sort_desc(s.drop_last()))
    }
}

/// The result limit: `max_results` clamped below at 0, or 10 when absent.
pub open spec fn spec_limit(q: SearchParams) -> int {
    match q.max_results {
        Some(m) => if m < 0 {
            0
        } else {
            m as int
        },
        None => 10,
    }
}

/// The whole pipeline: tokenize, score and retain, sort stably by
/// score descending, truncate to the limit, drop the scores.
pub open spec fn spec_search(lib: SampleLibrary, q: SearchParams) -> Seq<Sample> {
    let tokens = spec_tokens(q.query@);
    let sorted = sort_desc(lib_hits(q, lib.packs@, tokens));
    let cut = if spec_limit(q) <= sorted.len() {
        spec_limit(q)
    } else {
        sorted.len() as int
    };
    sorted.subrange(0, cut).map_values(|p: (Sample, int)| p.0)
}

/// Executable score pairs seen as spec pairs with mathematical scores.
pub open spec fn pairs_view(s: Seq<(Sample, usize)>) -> Seq<(Sample, int)> {
    s.map_values(|p: (Sample, usize)| (p.0, p.1 as int))
}

pub(crate) proof fn lemma_insert_desc_at(x: (Sample, int), s: Seq<(Sample, int)>, idx: int)
    requires
        0 <= idx <= s.len(),
        forall|j: int| 0 <= j < idx ==> (#[trigger] s[j]).1 >= x.1,
        idx < s.len() ==> x.1 > s[idx].1,
    ensures
        insert_desc(x, s) == s.subrange(0, idx) + seq![x] + s.subrange(idx, s.len() as int),
    decreases idx,
{
    if idx == 0 {
        if s.len() == 0 {
            assert(insert_desc(x, s) =~= s.subrange(0, 0) + seq![x] + s.subrange(0, 0));
        } else {
            assert(seq![x] + s =~= s.subrange(0, 0) + seq![x] + s.subrange(0, s.len() as int));
        }
    } else {
        let t = s.subrange(1, s.len() as int);
        assert(forall|j: int| 0 <= j < idx - 1 ==> (#[trigger] t[j]).1 == s[j + 1].1);
        lemma_insert_desc_at(x, t, idx - 1);
        assert(s[0].1 >= x.1);
        assert(insert_desc(x, s) == seq![s[0]] + insert_desc(x, t));
        assert(seq![s[0]] + (t.subrange(0, idx - 1) + seq![x] + t.subrange(idx - 1, t.len() as int))
            =~= s.subrange(0, idx) + seq![x] + s.subrange(idx, s.len() as int));
    }
}

fn insert_sorted(v: &mut Vec<(Sample, usize)>, x: (Sample, usize))
    ensures
        pairs_view(final(v)@) == insert_desc((x.0, x.1 as int), pairs_view(old(v)@)),
{
    let mut idx: usize = 0;
    while idx < v.len() && v[idx].1 >= x.1
        invariant
            idx <= v@.len(),
            v@ == old(v)@,
            forall|j: int| 0 <= j < idx ==> (#[trigger] v@[j]).1 >= x.1,
        decreases v@.len() - idx,
    {
        idx = idx + 1;
    }
    proof {
        assert(forall|j: int| 0 <= j < idx ==> (#[trigger] pairs_view(v@)[j]).1 >= x.1 as int);
        lemma_insert_desc_at((x.0, x.1 as int), pairs_view(v@), idx as int);
    }
    let ghost before = v@;
    v.insert(idx, x);
    proof {
        assert(pairs_view(v@) =~= pairs_view(before).subrange(0, idx as int) + seq![
            (x.0, x.1 as int),
        ] + pairs_view(before).subrange(idx as int, before.len() as int));
    }
}

fn prepare_tokens(query_text: &String) -> (r: Vec<Vec<char>>)
    ensures
        r.deep_view() == spec_tokens(query_text@),
{
    let qchars = chars_of(query_text.as_str());
    let qlow = to_lower_vec(&qchars);
    split_spaces_vec(&qlow)
}

fn relevance_vec(query: &SearchParams, sample: &Sample, tokens: &Vec<Vec<char>>) -> (r: usize)
    ensures
        r as int == spec_relevance(*query, *sample, tokens.deep_view()),
{
    match query.sample_type {
        Some(f) => {
            let matches_variant = match (f, sample.sampletype) {
                (SampleType::Loop(_), SampleType::Loop(_)) => true,
                (SampleType::OneShot, SampleType::OneShot) => true,
                _ => false,
            };
            if !matches_variant {
                return 0;
            }
            proof {
                assert(spec_type_gate(*query, *sample));
            }
        },
        None => {},
    }
    match query.sample_type {
        Some(SampleType::Loop(t)) => {
            let tu: u32 = if t >= 0 {
                t as u32
            } else {
                (((t as i64) + 0x1_0000_0000i64) as u32)
            };
            proof {
                assert(tu == tempo_as_u32(t));
            }
            match query.min_tempo {
                Some(mn) => {
                    if tu > mn {
                        return 0;
                    }
                },
                None => {},
            }
            match query.max_tempo {
                Some(mx) => {
                    if tu < mx {
                        return 0;
                    }
                },
                None => {},
            }
            proof {
                assert(spec_tempo_gate(*query));
            }
        },
        _ => {
            proof {
                assert(spec_tempo_gate(*query));
            }
        },
    }
    let pchars = chars_of(sample.path.as_str());
    let low = to_lower_vec(&pchars);
    let ghost lp = lower(sample.path@);
    let ghost toks = tokens.deep_view();
    let mut rel: usize = 0;
    let mut excluded = false;
    let mut k: usize = 0;
    while k < tokens.len()
        invariant
            k <= tokens@.len(),
            toks == tokens.deep_view(),
            toks.len() == tokens@.len(),
            low@ == lp,
            lp == lower(sample.path@),
            excluded <==> exists|j: int| 0 <= j < k && token_excludes(lp, #[trigger] toks[j]),
            rel <= k,
            rel as int == spec_match_count(lp, toks.subrange(0, k as int)),
        decreases tokens@.len() - k,
    {
        proof {
            assert(tokens@[k as int].deep_view() =~= tokens@[k as int]@);
            assert(toks[k as int] == tokens@[k as int]@);
        }
        let t = &tokens[k];
        if t.len() > 0 {
            if t[0] == '-' {
                let tl = to_lower_vec(t);
                let stripped = subvec(&tl, 1, tl.len());
                if contains_sub(&low, &stripped) {
                    excluded = true;
                }
            }
            let tl2 = to_lower_vec(t);
            if contains_sub(&low, &tl2) {
                rel = rel + 1;
            }
        }
        k = k + 1;
        proof {
            assert(toks.subrange(0, k as int).drop_last() =~= toks.subrange(0, k - 1));
            assert(toks.subrange(0, k as int).last() == toks[k - 1]);
        }
    }
    if excluded {
        return 0;
    }
    proof {
        assert(toks.subrange(0, toks.len() as int) =~= toks);
    }
    rel
}

/// Scores one sample against a query and an already prepared token
/// list, exactly as a search does.
pub fn use_sample_relevance(query: &SearchParams, sample: &Sample, text_queries: &Vec<&str>) -> (r:
    usize)
    ensures
        r as int == spec_relevance(*query, *sample, text_queries.deep_view()),
{
    let mut toks: Vec<Vec<char>> = Vec::new();
    let mut i: usize = 0;
    while i < text_queries.len()
        invariant
            i <= text_queries@.len(),
            toks@.len() == i,
            forall|j: int| 0 <= j < i ==> (#[trigger] toks@[j])@ == text_queries@[j]@,
        decreases text_queries@.len() - i,
    {
        toks.push(chars_of(text_queries[i]));
        i = i + 1;
    }
    proof {
        assert(toks.deep_view() =~~= text_queries.deep_view());
    }
    relevance_vec(query, sample, &toks)
}

/// Runs a query over the whole library: scores every sample of every
/// selected pack, keeps the positive scores, sorts stably by score
/// descending, and truncates to the limit.
pub fn search_lib(lib: &SampleLibrary, query: &SearchParams) -> (r: SearchResult)
    ensures
        r.samples@ == spec_search(*lib, *query),
{
    let tokens = prepare_tokens(&query.query);
    let ghost toks = tokens.deep_view();
    let mut sorting_vec: Vec<(Sample, usize)> = Vec::new();
    let mut pi: usize = 0;
    while pi < lib.packs.len()
        invariant
            pi <= lib.packs@.len(),
            toks == tokens.deep_view(),
            toks == spec_tokens(query.query@),
            pairs_view(sorting_vec@) == lib_hits(*query, lib.packs@.subrange(0, pi as int), toks),
        decreases lib.packs@.len() - pi,
    {
        let pack = &lib.packs[pi];
        let selected = match &query.pack_id {
            Some(pid) => pack.meta.name.eq(pid),
            None => true,
        };
        proof {
            assert(selected == pack_selected(*query, lib.packs@[pi as int]));
        }
        if selected {
            let mut sj: usize = 0;
            while sj < pack.samples.len()
                invariant
                    pi < lib.packs@.len(),
                    *pack == lib.packs@[pi as int],
                    sj <= pack.samples@.len(),
                    toks == tokens.deep_view(),
                    pairs_view(sorting_vec@) == lib_hits(
                        *query,
                        lib.packs@.subrange(0, pi as int),
                        toks,
                    ) + sample_hits(*query, pack.samples@.subrange(0, sj as int), toks),
                decreases pack.samples@.len() - sj,
            {
                let s = &pack.samples[sj];
                let rel = relevance_vec(query, s, &tokens);
                if rel > 0 {
                    let cloned = s.clone();
                    proof {
                        assert(cloned == pack.samples@[sj as int]);
                        assert(rel as int == spec_relevance(
                            *query,
                            pack.samples@[sj as int],
                            toks,
                        ));
                    }
                    sorting_vec.push((cloned, rel));
                }
                sj = sj + 1;
                proof {
                    let pre = pack.samples@.subrange(0, sj - 1);
                    let cur = pack.samples@.subrange(0, sj as int);
                    assert(cur.drop_last() =~= pre);
                    assert(cur.last() == pack.samples@[sj - 1]);
                    let a = lib_hits(*query, lib.packs@.subrange(0, pi as int), toks);
                    let b = sample_hits(*query, pre, toks);
                    let bc = sample_hits(*query, cur, toks);
                    let r = spec_relevance(*query, pack.samples@[sj - 1], toks);
                    assert(bc == if r > 0 {
                        b.push((pack.samples@[sj - 1], r))
                    } else {
                        b
                    });
                    if r > 0 {
                        let x = (pack.samples@[sj - 1], r);
                        let lhs = pairs_view(sorting_vec@);
                        let rhs = a + b.push(x);
                        assert(a + b == pairs_view(sorting_vec@.drop_last()));
                        assert forall|ii: int| 0 <= ii < lhs.len() implies lhs[ii] == rhs[ii] by {
                            if ii < a.len() + b.len() {
                                assert(lhs[ii] == (a + b)[ii]);
                            } else {
                                assert(sorting_vec@[ii] == (x.0, rel));
                            }
                        }
                        assert(lhs =~= rhs);
                    } else {
                        assert(pairs_view(sorting_vec@) == a + b);
                    }
                    assert(pairs_view(sorting_vec@) == a + bc);
                }
            }
            proof {
                assert(pack.samples@.subrange(0, pack.samples@.len() as int) =~= pack.samples@);
            }
        }
        pi = pi + 1;
        proof {
            assert(lib.packs@.subrange(0, pi as int).drop_last() =~= lib.packs@.subrange(
                0,
                pi - 1,
            ));
            assert(lib.packs@.subrange(0, pi as int).last() == lib.packs@[pi - 1]);
            assert(pairs_view(sorting_vec@) =~= lib_hits(
                *query,
                lib.packs@.subrange(0, pi as int),
                toks,
            ));
        }
    }
    proof {
        assert(lib.packs@.subrange(0, lib.packs@.len() as int) =~= lib.packs@);
    }
    let ghost all_hits = lib_hits(*query, lib.packs@, toks);
    let mut sorted_vec: Vec<(Sample, usize)> = Vec::new();
    let mut k: usize = 0;
    while k < sorting_vec.len()
        invariant
            k <= sorting_vec@.len(),
            pairs_view(sorting_vec@) == all_hits,
            toks == spec_tokens(query.query@),
            all_hits == lib_hits(*query, lib.packs@, toks),
            pairs_view(sorted_vec@) == sort_desc(pairs_view(sorting_vec@).subrange(0, k as int)),
        decreases sorting_vec@.len() - k,
    {
        let pair = (sorting_vec[k].0.clone(), sorting_vec[k].1);
        insert_sorted(&mut sorted_vec, pair);
        k = k + 1;
        proof {
            let pv = pairs_view(sorting_vec@);
            assert(pv.subrange(0, k as int).drop_last() =~= pv.subrange(0, k - 1));
            assert(pv.subrange(0, k as int).last() == pv[k - 1]);
        }
    }
    proof {
        assert(pairs_view(sorting_vec@).subrange(0, sorting_vec@.len() as int) =~= pairs_view(
            sorting_vec@,
        ));
    }
    let ghost sorted_spec = sort_desc(all_hits);
    let limit: usize = match query.max_results {
        Some(input) => if input < 0 {
            0
        } else {
            input as usize
        },
        None => 10,
    };
    proof {
        assert(limit as int == spec_limit(*query));
    }
    let cut = if limit <= sorted_vec.len() {
        limit
    } else {
        sorted_vec.len()
    };
    let mut ret_vec: Vec<Sample> = Vec::new();
    let mut m: usize = 0;
    while m < cut
        invariant
            m <= cut,
            cut <= sorted_vec@.len(),
            pairs_view(sorted_vec@) == sorted_spec,
            cut as int == if spec_limit(*query) <= sorted_spec.len() {
                spec_limit(*query)
            } else {
                sorted_spec.len() as int
            },
            ret_vec@.len() == m,
            forall|j: int| 0 <= j < m ==> ret_vec@[j] == (#[trigger] sorted_spec[j]).0,
        decreases cut - m,
    {
        ret_vec.push(sorted_vec[m].0.clone());
        m = m + 1;
    }
    proof {
        assert(ret_vec@ =~= spec_search(*lib, *query));
    }
    SearchResult { samples: ret_vec }
}

} // verus!
