use sample_search::{
    get_sample, search_lib, use_sample_relevance, Pack, PackInfo, Sample, SampleLibrary,
    SampleType, SearchParams, SearchResult,
};

fn pack_of(name: &str, paths: &[&str]) -> Pack {
    let samples: Vec<Sample> = paths.iter().map(|p| get_sample(p)).collect();
    let n = samples.len() as u32;
    Pack {
        samples,
        meta: PackInfo {
            description: String::from("test pack"),
            name: String::from(name),
            img: None,
            num_samples: Some(n),
        },
    }
}

fn lib_of(packs: Vec<Pack>) -> SampleLibrary {
    SampleLibrary {
        packs,
        name: String::from("test library"),
    }
}

fn query(text: &str) -> SearchParams {
    SearchParams {
        query: String::from(text),
        sample_type: None,
        max_tempo: None,
        min_tempo: None,
        pack_id: None,
        max_results: None,
    }
}

fn paths_of(r: &SearchResult) -> Vec<String> {
    r.samples.iter().map(|s| s.path.clone()).collect()
}

#[test]
fn type_filter_gate_excludes_other_variant() {
    let lib = lib_of(vec![pack_of(
        "Loops",
        &["a_loop_[120].wav", "b_loop_[90].wav"],
    )]);
    let mut q = query("loop");
    q.sample_type = Some(SampleType::OneShot);
    let r = search_lib(&lib, &q);
    assert!(r.samples.is_empty());
}

#[test]
fn type_filter_matches_by_variant_not_tempo() {
    let lib = lib_of(vec![pack_of("Loops", &["a_loop_[120].wav"])]);
    let mut q = query("loop");
    // the filter tempo differs from the sample's tempo; only the
    // variant is compared
    q.sample_type = Some(SampleType::Loop(999));
    let r = search_lib(&lib, &q);
    assert_eq!(paths_of(&r), vec![String::from("a_loop_[120].wav")]);
}

#[test]
fn negation_excludes_matching_paths() {
    let lib = lib_of(vec![pack_of(
        "Drums",
        &["kick_808.wav", "kick_clean.wav", "snare_808_kick.wav"],
    )]);
    let r = search_lib(&lib, &query("kick -808"));
    assert_eq!(paths_of(&r), vec![String::from("kick_clean.wav")]);
}

#[test]
fn limit_defaults_to_ten() {
    let paths: Vec<String> = (0..15).map(|i| format!("kick_{i}.wav")).collect();
    let refs: Vec<&str> = paths.iter().map(|s| s.as_str()).collect();
    let lib = lib_of(vec![pack_of("Drums", &refs)]);
    let r = search_lib(&lib, &query("kick"));
    assert_eq!(r.samples.len(), 10);
}

#[test]
fn limit_override_never_pads() {
    let lib = lib_of(vec![pack_of("Drums", &["kick.wav", "snare.wav"])]);
    let mut q = query("kick");
    q.max_results = Some(3);
    let r = search_lib(&lib, &q);
    assert_eq!(r.samples.len(), 1);
    assert_eq!(r.samples[0].path, "kick.wav");
}

#[test]
fn negative_limit_yields_empty_result() {
    let lib = lib_of(vec![pack_of("Drums", &["kick.wav"])]);
    let mut q = query("kick");
    q.max_results = Some(-1);
    let r = search_lib(&lib, &q);
    assert!(r.samples.is_empty());
}

#[test]
fn end_to_end_tie_keeps_scan_order() {
    let lib = lib_of(vec![pack_of(
        "Drums",
        &["kit/Loop_[90]_clap.wav", "kit/clap_oneshot.wav"],
    )]);
    let r = search_lib(&lib, &query("clap"));
    assert_eq!(
        paths_of(&r),
        vec![
            String::from("kit/Loop_[90]_clap.wav"),
            String::from("kit/clap_oneshot.wav"),
        ]
    );
}

#[test]
fn higher_relevance_ranks_first() {
    let lib = lib_of(vec![pack_of(
        "Drums",
        &["kick.wav", "kick_snare.wav", "hat.wav"],
    )]);
    let r = search_lib(&lib, &query("kick snare"));
    assert_eq!(
        paths_of(&r),
        vec![String::from("kick_snare.wav"), String::from("kick.wav")]
    );
}

#[test]
fn pack_filter_restricts_to_named_pack() {
    let lib = lib_of(vec![
        pack_of("Drums", &["drums/kick.wav"]),
        pack_of("Synths", &["synths/kick_like_pluck.wav"]),
    ]);
    let mut q = query("kick");
    q.pack_id = Some(String::from("Drums"));
    let r = search_lib(&lib, &q);
    assert_eq!(paths_of(&r), vec![String::from("drums/kick.wav")]);
}

#[test]
fn pack_filter_is_case_sensitive_and_exact() {
    let lib = lib_of(vec![pack_of("Drums", &["kick.wav"])]);
    let mut q = query("kick");
    q.pack_id = Some(String::from("drums"));
    assert!(search_lib(&lib, &q).samples.is_empty());
    q.pack_id = Some(String::from("Nope"));
    assert!(search_lib(&lib, &q).samples.is_empty());
}

#[test]
fn empty_query_matches_nothing() {
    let lib = lib_of(vec![pack_of("Drums", &["kick.wav"])]);
    let r = search_lib(&lib, &query(""));
    assert!(r.samples.is_empty());
}

#[test]
fn search_is_case_insensitive() {
    let lib = lib_of(vec![pack_of("Drums", &["KICK_Main.wav"])]);
    let r = search_lib(&lib, &query("kick"));
    assert_eq!(r.samples.len(), 1);
    let r2 = search_lib(&lib, &query("KICK"));
    assert_eq!(r2.samples.len(), 1);
}

#[test]
fn tempo_gate_checks_the_filters_own_tempo() {
    let lib = lib_of(vec![pack_of("Loops", &["groove_loop_[150].wav"])]);
    let mut q = query("loop");
    // filter tempo above min_tempo: gated out, whatever the sample's
    // own tempo says
    q.sample_type = Some(SampleType::Loop(100));
    q.min_tempo = Some(90);
    assert!(search_lib(&lib, &q).samples.is_empty());
    // filter tempo within both bounds: passes
    let mut q2 = query("loop");
    q2.sample_type = Some(SampleType::Loop(80));
    q2.min_tempo = Some(90);
    q2.max_tempo = Some(70);
    assert_eq!(search_lib(&lib, &q2).samples.len(), 1);
    // filter tempo below max_tempo: gated out
    let mut q3 = query("loop");
    q3.sample_type = Some(SampleType::Loop(60));
    q3.max_tempo = Some(70);
    assert!(search_lib(&lib, &q3).samples.is_empty());
}

#[test]
fn relevance_counts_matching_tokens() {
    let q = query("kick 808");
    let sample = get_sample("drums/kick_808_long.wav");
    let tokens = vec!["kick", "808"];
    assert_eq!(use_sample_relevance(&q, &sample, &tokens), 2);
    let other = get_sample("drums/hat.wav");
    assert_eq!(use_sample_relevance(&q, &other, &tokens), 0);
}

#[test]
fn negation_strips_only_the_leading_dash() {
    // the exclusion text of "-a-b" is "a-b": only the leading dash is
    // stripped, inner dashes stay
    let q = query("cab -a-b");
    let tokens = vec!["cab", "-a-b"];
    // "cab.wav" contains "ab" but not "a-b": kept, scoring its match
    let kept = get_sample("cab.wav");
    assert_eq!(use_sample_relevance(&q, &kept, &tokens), 1);
    // a path containing "a-b" is excluded, however much else matches
    let shut_out = get_sample("cab-a-b.wav");
    assert_eq!(use_sample_relevance(&q, &shut_out, &tokens), 0);
}

#[test]
fn search_negation_strips_only_the_leading_dash() {
    let lib = lib_of(vec![pack_of("Drums", &["cab.wav", "cab-a-b.wav"])]);
    let r = search_lib(&lib, &query("cab -a-b"));
    assert_eq!(paths_of(&r), vec![String::from("cab.wav")]);
}

#[test]
fn tokens_are_not_trimmed() {
    // tokens come from splitting on single spaces only; other
    // whitespace stays part of the token and must match literally
    let lib = lib_of(vec![pack_of("Drums", &["kick.wav"])]);
    assert!(search_lib(&lib, &query("kick\t")).samples.is_empty());
    assert!(search_lib(&lib, &query("\nkick")).samples.is_empty());
    assert_eq!(search_lib(&lib, &query("kick")).samples.len(), 1);
}

#[test]
fn relevance_empty_tokens_contribute_nothing() {
    let q = query("");
    let sample = get_sample("kick.wav");
    let tokens = vec!["", ""];
    assert_eq!(use_sample_relevance(&q, &sample, &tokens), 0);
}

#[test]
fn double_space_in_query_is_harmless() {
    let lib = lib_of(vec![pack_of("Drums", &["kick.wav"])]);
    let r = search_lib(&lib, &query("kick  kick"));
    assert_eq!(r.samples.len(), 1);
}

#[test]
fn unrelated_query_returns_empty() {
    let lib = lib_of(vec![pack_of("Drums", &["kick.wav"])]);
    assert!(search_lib(&lib, &query("zither")).samples.is_empty());
}
