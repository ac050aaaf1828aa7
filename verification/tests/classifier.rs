use sample_search::{
    assemble_pack, detect_tempo_txt, detect_type, extract_tempo_braces, get_packs_metadata,
    get_sample, Pack, PackInfo, Sample, SampleLibrary, SampleType,
};

#[test]
fn bracketed_tempo_yields_loop_120() {
    assert_eq!(detect_type("x[120]y"), SampleType::Loop(120));
}

#[test]
fn bracket_alone_classifies_as_loop() {
    assert_eq!(detect_type("snare [95] take2.wav"), SampleType::Loop(95));
}

#[test]
fn no_keyword_yields_one_shot() {
    assert_eq!(detect_type("kick.wav"), SampleType::OneShot);
    assert_eq!(detect_type("snare_hit.mp3"), SampleType::OneShot);
}

#[test]
fn loop_with_malformed_brackets_yields_tempo_zero() {
    assert_eq!(detect_type("loop_[abc"), SampleType::Loop(0));
}

#[test]
fn loop_keyword_without_brackets_yields_tempo_zero() {
    assert_eq!(detect_type("drum_loop.wav"), SampleType::Loop(0));
}

#[test]
fn detection_is_case_insensitive() {
    assert_eq!(detect_type("Drum_LOOP.wav"), SampleType::Loop(0));
    assert_eq!(detect_type("HOUSE 128BPM kick"), SampleType::Loop(0));
}

#[test]
fn detect_type_is_pure() {
    let p = "kit/Loop_[90]_clap.wav";
    assert_eq!(detect_type(p), detect_type(p));
    assert_eq!(detect_type("kick.wav"), detect_type("kick.wav"));
}

#[test]
fn extract_tempo_reads_first_bracket_pair() {
    assert_eq!(extract_tempo_braces("a[128]b"), Some(128));
    assert_eq!(extract_tempo_braces("a[12]b[34]c"), Some(12));
}

#[test]
fn extract_tempo_missing_brackets() {
    assert_eq!(extract_tempo_braces("no brackets at all"), None);
    assert_eq!(extract_tempo_braces("open [ only"), None);
    assert_eq!(extract_tempo_braces("close ] then [ open"), None);
}

#[test]
fn extract_tempo_unparseable_interior() {
    assert_eq!(extract_tempo_braces("x[abc]y"), None);
    assert_eq!(extract_tempo_braces("x[]y"), None);
    assert_eq!(extract_tempo_braces("x[12.5]y"), None);
}

#[test]
fn extract_tempo_signed_values() {
    assert_eq!(extract_tempo_braces("x[-5]y"), Some(-5));
    assert_eq!(extract_tempo_braces("x[+7]y"), Some(7));
}

#[test]
fn extract_tempo_overflow_is_none() {
    assert_eq!(extract_tempo_braces("x[2147483647]y"), Some(2147483647));
    assert_eq!(extract_tempo_braces("x[2147483648]y"), None);
    assert_eq!(extract_tempo_braces("x[-2147483648]y"), Some(-2147483648));
}

#[test]
fn detect_tempo_txt_falls_back_to_zero() {
    assert_eq!(detect_tempo_txt("a[90]b"), 90);
    assert_eq!(detect_tempo_txt("a[xx]b"), 0);
    assert_eq!(detect_tempo_txt("nothing"), 0);
}

#[test]
fn get_sample_mirrors_path() {
    let s = get_sample("kit/Loop_[90]_clap.wav");
    assert_eq!(s.path, "kit/Loop_[90]_clap.wav");
    assert_eq!(s.name, "kit/Loop_[90]_clap.wav");
    assert_eq!(s.sampletype, SampleType::Loop(90));
}

#[test]
fn assemble_pack_keeps_order_and_counts() {
    let paths = vec![
        String::from("kit/Loop_[90]_clap.wav"),
        String::from("kit/clap_oneshot.wav"),
        String::from("bass/sub_hit.wav"),
    ];
    let pack = assemble_pack(&paths, "Drums", "a drum pack");
    assert_eq!(pack.samples.len(), 3);
    assert_eq!(pack.samples[0].path, "kit/Loop_[90]_clap.wav");
    assert_eq!(pack.samples[0].sampletype, SampleType::Loop(90));
    assert_eq!(pack.samples[1].path, "kit/clap_oneshot.wav");
    assert_eq!(pack.samples[1].sampletype, SampleType::OneShot);
    assert_eq!(pack.samples[2].sampletype, SampleType::OneShot);
    assert_eq!(pack.meta.name, "Drums");
    assert_eq!(pack.meta.description, "a drum pack");
    assert!(pack.meta.img.is_none());
    assert_eq!(pack.meta.num_samples, Some(3));
}

#[test]
fn packs_metadata_projection() {
    let drums = assemble_pack(
        &vec![String::from("kick.wav"), String::from("snare.wav")],
        "Drums",
        "drums",
    );
    let synths = assemble_pack(&vec![String::from("lead.wav")], "Synths", "synths");
    let lib = SampleLibrary {
        packs: vec![drums, synths],
        name: String::from("test lib"),
    };
    let metas: Vec<PackInfo> = get_packs_metadata(&lib);
    assert_eq!(metas.len(), 2);
    assert_eq!(metas[0].name, "Drums");
    assert_eq!(metas[0].num_samples, Some(2));
    assert_eq!(metas[1].name, "Synths");
    assert_eq!(metas[1].num_samples, Some(1));
}

#[test]
fn sample_construction_by_hand() {
    let s = Sample {
        path: String::from("p"),
        name: String::from("n"),
        sampletype: SampleType::OneShot,
    };
    let lib = SampleLibrary {
        packs: vec![Pack {
            samples: vec![s.clone()],
            meta: PackInfo {
                description: String::from("d"),
                name: String::from("P"),
                img: None,
                num_samples: Some(1),
            },
        }],
        name: String::from("l"),
    };
    assert_eq!(lib.packs[0].samples[0], s);
}
