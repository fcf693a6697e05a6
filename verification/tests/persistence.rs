use seqterm::persistence::{
    load_recent_projects, next_free_version, push_recent_midi_import, push_recent_project, version_base_of, versioned_file_name,
    ProjectFormat, RecentFiles,
};

#[test]
fn format_follows_extension() {
    assert_eq!(ProjectFormat::from_path("songs/demo.seqterm"), ProjectFormat::MessagePack);
    assert_eq!(ProjectFormat::from_path("songs/demo.json"), ProjectFormat::Json);
    assert_eq!(ProjectFormat::from_path("songs/demo"), ProjectFormat::Json);
    assert_eq!(ProjectFormat::from_path(".seqterm"), ProjectFormat::Json);
    assert_eq!(ProjectFormat::MessagePack.extension(), "seqterm");
    assert_eq!(ProjectFormat::Json.extension(), "json");
}

#[test]
fn versioned_names_strip_old_suffix() {
    assert_eq!(version_base_of("demo"), "demo");
    assert_eq!(version_base_of("demo_v003"), "demo");
    assert_eq!(version_base_of("demo_v03"), "demo_v03");
    assert_eq!(version_base_of("demo_vx12"), "demo_vx12");
    assert_eq!(version_base_of("my_vocal_v012"), "my_vocal");
    assert_eq!(versioned_file_name("demo", 1, "json"), "demo_v001.json");
    assert_eq!(versioned_file_name("demo_v001", 12, "json"), "demo_v012.json");
    assert_eq!(versioned_file_name("a", 999, "seqterm"), "a_v999.seqterm");
}

#[test]
fn recent_lists_move_to_front_and_cap() {
    let mut r = RecentFiles { projects: Vec::new(), midi_imports: Vec::new() };
    for i in 0..12 {
        push_recent_project(&mut r, &format!("p{i}.json"));
    }
    assert_eq!(r.projects.len(), 10);
    assert_eq!(r.projects[0], "p11.json");
    push_recent_project(&mut r, "p5.json");
    assert_eq!(r.projects[0], "p5.json");
    assert_eq!(r.projects.iter().filter(|p| p.as_str() == "p5.json").count(), 1);
    push_recent_project(&mut r, "dir//p6.json");
    push_recent_project(&mut r, "dir/p6.json");
    assert_eq!(r.projects.iter().filter(|p| p.contains("p6")).count(), 2);
    assert_eq!(r.projects[0], "dir/p6.json");
    push_recent_midi_import(&mut r, "x.mid");
    assert_eq!(r.midi_imports, vec!["x.mid".to_string()]);
    let present: Vec<bool> = (0..r.projects.len()).map(|i| i % 2 == 0).collect();
    let kept = load_recent_projects(&r, &present);
    assert_eq!(kept.len(), 5);
    assert_eq!(kept[0], r.projects[0]);
}

#[test]
fn next_free_version_skips_taken_versions() {
    assert_eq!(next_free_version(&[]), Some(1));
    assert_eq!(next_free_version(&[true, true, false, true]), Some(3));
    assert_eq!(next_free_version(&[true, true]), Some(3));
    assert_eq!(next_free_version(&vec![true; 999]), None);
}
