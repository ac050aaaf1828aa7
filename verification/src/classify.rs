use vstd::prelude::*;
use crate::model::{Sample, SampleType};
use crate::text::{
    chars_of, contains_sub, find_char, find_char_vec, has_substring, lemma_find_char, lower,
    parse_int, parse_int_vec, subvec, to_lower_vec,
};

verus! {

/// The fixed keyword set whose presence in a lowercased path marks the
/// sample as a loop.
pub open spec fn loop_keywords() -> Seq<Seq<char>> {
    seq!["/loop"@, "/construction"@, "_loop"@, "["@, "bpm"@, "loop"@, "loops"@]
}

/// Some loop keyword occurs in the (already lowercased) path.
pub open spec fn spec_is_loop(low: Seq<char>) -> bool {
    exists|k: int| 0 <= k < loop_keywords().len() && has_substring(low, loop_keywords()[k])
}

/// Tempo extraction: the text strictly between the first `[` and the
/// first `]` after it, parsed as a base-10 integer; absent when either
/// bracket is missing or the interior does not parse.
pub open spec fn spec_extract_tempo(p: Seq<char>) -> Option<i32> {
    let i = find_char(p, '[');
    if 0 <= i < p.len() {
        let rest = p.subrange(i + 1, p.len() as int);
        let j = find_char(rest, ']');
        if 0 <= j < rest.len() {
            parse_int(rest.subrange(0, j))
        } else {
            None
        }
    } else {
        None
    }
}

/// Tempo with the fallback: 0 when extraction fails.
pub open spec fn spec_detect_tempo(p: Seq<char>) -> i32 {
    match spec_extract_tempo(p) {
        Some(v) => v,
        None => 0,
    }
}

/// The classification heuristic: lowercase the path; any loop keyword
/// hit makes the sample a `Loop` whose tempo is read from the first
/// bracket pair of the lowercased path; otherwise it is a `OneShot`.
pub open spec fn spec_detect_type(p: Seq<char>) -> SampleType {
    let low = lower(p);
    if spec_is_loop(low) {
        SampleType::Loop(spec_detect_tempo(low))
    } else {
        SampleType::OneShot
    }
}

fn extract_tempo_vec(p: &Vec<char>) -> (r: Option<i32>)
    ensures
        r == spec_extract_tempo(p@),
{
    proof {
        lemma_find_char(p@, '[');
    }
    let i = find_char_vec(p, '[');
    let n = p.len();
    if i == n {
        return None;
    }
    let rest = subvec(p, i + 1, n);
    proof {
        lemma_find_char(rest@, ']');
    }
    let j = find_char_vec(&rest, ']');
    if j == rest.len() {
        return None;
    }
    let interior = subvec(&rest, 0, j);
    parse_int_vec(&interior)
}

/// The text between the first `[` and the first `]` after it, parsed
/// as an integer; `None` when absent or unparseable.
pub fn extract_tempo_braces(path: &str) -> (r: Option<i32>)
    ensures
        r == spec_extract_tempo(path@),
{
    let p = chars_of(path);
    extract_tempo_vec(&p)
}

fn detect_tempo_vec(p: &Vec<char>) -> (r: i32)
    ensures
        r == spec_detect_tempo(p@),
{
    let extracted = extract_tempo_vec(p);
    match extracted {
        Some(val) => val,
        None => 0,
    }
}

/// Tempo read from the path's first bracket pair, 0 when absent or
/// unparseable.
pub fn detect_tempo_txt(path: &str) -> (r: i32)
    ensures
        r == spec_detect_tempo(path@),
{
    let p = chars_of(path);
    detect_tempo_vec(&p)
}

/// Classifies a path as `Loop` (with tempo) or `OneShot` by the fixed
/// keyword heuristic.
pub fn detect_type(path: &str) -> (r: SampleType)
    ensures
        r == spec_detect_type(path@),
{
    let p = chars_of(path);
    let low = to_lower_vec(&p);
    let k0 = chars_of("/loop");
    let k1 = chars_of("/construction");
    let k2 = chars_of("_loop");
    let k3 = chars_of("[");
    let k4 = chars_of("bpm");
    let k5 = chars_of("loop");
    let k6 = chars_of("loops");
    let hit = contains_sub(&low, &k0) || contains_sub(&low, &k1) || contains_sub(&low, &k2)
        || contains_sub(&low, &k3) || contains_sub(&low, &k4) || contains_sub(&low, &k5)
        || contains_sub(&low, &k6);
    if hit {
        proof {
            assert(spec_is_loop(low@));
        }
        let tempo = detect_tempo_vec(&low);
        SampleType::Loop(tempo)
    } else {
        proof {
            assert forall|k: int| 0 <= k < loop_keywords().len() implies !has_substring(
                low@,
                loop_keywords()[k],
            ) by {
                if k == 0 {
                    assert(loop_keywords()[0] == "/loop"@);
                } else if k == 1 {
                    assert(loop_keywords()[1] == "/construction"@);
                } else if k == 2 {
                    assert(loop_keywords()[2] == "_loop"@);
                } else if k == 3 {
                    assert(loop_keywords()[3] == "["@);
                } else if k == 4 {
                    assert(loop_keywords()[4] == "bpm"@);
                } else if k == 5 {
                    assert(loop_keywords()[5] == "loop"@);
                } else {
                    assert(loop_keywords()[6] == "loops"@);
                }
            }
        }
        SampleType::OneShot
    }
}

/// Builds the `Sample` for one path: the raw path serves as both the
/// identifier and the display name, and the classifier supplies the
/// type tag.
pub fn get_sample(path: &str) -> (s: Sample)
    ensures
        s.path@ == path@,
        s.name@ == path@,
        s.sampletype == spec_detect_type(path@),
{
    let sample_type = detect_type(path);
    let sample = Sample {
        name: path.to_owned(),
        path: path.to_owned(),
        sampletype: sample_type,
    };
    sample
}

} // verus!
