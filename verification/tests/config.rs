use sprunk::{
    meta_match, parse_time, verify_zones, Connection, Definitions, Intro, Media, Metadata, Output,
    RadioIndex, RadioInfo, RandomMixer, Song, Zone,
};

fn meta(title: &str, artist: &str, album: Option<&str>) -> Metadata {
    Metadata {
        title: title.to_string(),
        artist: artist.to_string(),
        album: album.map(|s| s.to_string()),
    }
}

#[test]
fn parse_time_reads_base_sixty() {
    assert_eq!(parse_time(&b"1:30".to_vec()), Some(90_000_000));
    assert_eq!(parse_time(&b"90".to_vec()), Some(90_000_000));
    assert_eq!(parse_time(&b"0".to_vec()), Some(0));
    assert_eq!(parse_time(&b"2:00:05".to_vec()), Some(7205_000_000));
    // parts may carry decimal fractions, read to microseconds
    assert_eq!(parse_time(&b"1:30.5".to_vec()), Some(90_500_000));
    assert_eq!(parse_time(&b"0.25".to_vec()), Some(250_000));
    assert_eq!(parse_time(&b".5".to_vec()), Some(500_000));
    assert_eq!(parse_time(&b"1.000001".to_vec()), Some(1_000_001));
}

#[test]
fn parse_time_rejects_malformed_literals() {
    assert_eq!(parse_time(&b"".to_vec()), None);
    assert_eq!(parse_time(&b"1:".to_vec()), None);
    assert_eq!(parse_time(&b"a:30".to_vec()), None);
    assert_eq!(parse_time(&b"1:3 0".to_vec()), None);
    assert_eq!(parse_time(&b"1..5".to_vec()), None);
    assert_eq!(parse_time(&b".".to_vec()), None);
}

#[test]
fn metadata_matching_respects_albums() {
    let a = meta("Song", "Artist", Some("One"));
    let b = meta("Song", "Artist", Some("Two"));
    let c = meta("Song", "Artist", None);
    assert!(!meta_match(&a, &b));
    assert!(meta_match(&a, &c));
    assert!(meta_match(&a, &a));
    assert!(!meta_match(&meta("Other", "Artist", None), &c));
}

#[test]
fn definitions_verify_finds_orphan_intro() {
    let mut defs = Definitions::empty();
    defs.music.push(Song {
        path: "song".to_string(),
        metadata: meta("Song", "Artist", None),
        pre_micros: 1_000_000,
        post_micros: 2_000_000,
    });
    defs.intro.push(Intro { path: "intro".to_string(), metadata: meta("Song", "Artist", None) });
    assert!(defs.verify().is_ok());
    defs.intro.push(Intro { path: "other".to_string(), metadata: meta("Unknown", "Artist", None) });
    assert_eq!(defs.verify(), Err(1));
    assert_eq!(defs.get_intros(&meta("Song", "Artist", None)), vec![0]);
}

#[test]
fn definitions_merge_appends_and_overrides_name() {
    let mut a = Definitions::empty();
    a.general.push("a".to_string());
    let mut b = Definitions::empty();
    b.general.push("b".to_string());
    b.name = Some("Station".to_string());
    a.merge(b);
    assert_eq!(a.general, vec!["a".to_string(), "b".to_string()]);
    assert_eq!(a.name.as_deref(), Some("Station"));
}

#[test]
fn radio_index_lookups() {
    let mut info = RadioInfo::new();
    info.files.push("station.yaml".to_string());
    let index = RadioIndex::new(vec![("lofi".to_string(), info)]);
    assert!(index.contains_key(&"lofi".to_string()));
    assert!(!index.contains_key(&"other".to_string()));
    assert_eq!(index.keys(), vec!["lofi".to_string()]);
    assert_eq!(index.load(&"lofi".to_string()), Some(vec!["station.yaml".to_string()]));
    assert_eq!(index.load(&"other".to_string()), None);
}

#[test]
fn output_literals() {
    assert!(matches!(Output::from_str(&"play".to_string()), Some(Output::System)));
    assert!(matches!(Output::from_str(&"system".to_string()), Some(Output::System)));
    match Output::from_str(&"file:out.mp3".to_string()) {
        Some(Output::File(p)) => assert_eq!(p, "out.mp3"),
        other => panic!("expected a file output, got {:?}", other.is_some()),
    }
    match Output::from_str(&"out.mp3".to_string()) {
        Some(Output::File(p)) => assert_eq!(p, "out.mp3"),
        _ => panic!("expected a bare path to become a file output"),
    }
}

#[test]
fn zone_graph_checks() {
    let town = Zone {
        name: "town".to_string(),
        parent: None,
        connections: vec![Connection { destination: "field".to_string(), via: None }],
    };
    let field = Zone {
        name: "field".to_string(),
        parent: None,
        connections: vec![Connection { destination: "town".to_string(), via: None }],
    };
    let zones = vec![town, field];
    assert!(verify_zones(&zones));
    let broken = vec![Zone {
        name: "town".to_string(),
        parent: None,
        connections: vec![Connection { destination: "nowhere".to_string(), via: None }],
    }];
    assert!(!verify_zones(&broken));
    // a one-way edge is rejected: every connection must come back
    let one_way = vec![
        Zone {
            name: "town".to_string(),
            parent: None,
            connections: vec![Connection { destination: "field".to_string(), via: None }],
        },
        Zone { name: "field".to_string(), parent: None, connections: vec![] },
    ];
    assert!(!verify_zones(&one_way));
}

#[test]
fn connection_flip_points_back() {
    let town = Zone { name: "town".to_string(), parent: None, connections: vec![] };
    let conn = Connection { destination: "field".to_string(), via: Some("road".to_string()) };
    let back = conn.flip(&town);
    assert_eq!(back.destination, "town");
    assert_eq!(back.via.as_deref(), Some("road"));
}

#[test]
fn random_mixer_avoids_immediate_repeats() {
    // with three keys and a thousand consecutive picks, no key appears
    // twice in a row
    let keys = vec!["a".to_string(), "b".to_string(), "c".to_string()];
    let mut mixer = RandomMixer::new();
    let mut last: Option<String> = None;
    for _ in 0..1000 {
        let pick = mixer.pick(&keys).expect("candidates are nonempty");
        if let Some(prev) = &last {
            assert_ne!(&pick, prev, "a key repeated immediately");
        }
        last = Some(pick);
    }
}

#[test]
fn random_mixer_empty_candidates() {
    let mut mixer = RandomMixer::new();
    assert!(mixer.pick(&Vec::new()).is_none());
}

#[test]
fn possibility_map_and_accept() {
    let mut mixer = RandomMixer::new();
    let keys = vec!["only".to_string()];
    let p = mixer.possibility(&keys).expect("one candidate");
    let p2 = p.map(|v| v.len());
    let len = p2.accept(&mut mixer);
    assert_eq!(len, 4);
}

fn little_u32(v: u32) -> [u8; 4] {
    v.to_le_bytes()
}

fn little_u16(v: u16) -> [u8; 2] {
    v.to_le_bytes()
}

fn wav_bytes(samples: &[i16], samplerate: u32) -> Vec<u8> {
    let data_len = (samples.len() * 2) as u32;
    let mut out = Vec::new();
    out.extend_from_slice(b"RIFF");
    out.extend_from_slice(&little_u32(36 + data_len));
    out.extend_from_slice(b"WAVE");
    out.extend_from_slice(b"fmt ");
    out.extend_from_slice(&little_u32(16));
    out.extend_from_slice(&little_u16(1));
    out.extend_from_slice(&little_u16(1));
    out.extend_from_slice(&little_u32(samplerate));
    out.extend_from_slice(&little_u32(samplerate * 2));
    out.extend_from_slice(&little_u16(2));
    out.extend_from_slice(&little_u16(16));
    out.extend_from_slice(b"data");
    out.extend_from_slice(&little_u32(data_len));
    for s in samples {
        out.extend_from_slice(&s.to_le_bytes());
    }
    out
}

#[test]
fn media_decodes_wav_samples() {
    // a tiny handcrafted PCM16 WAV decodes to left-justified samples, so
    // a decoder that handed bytes back unchanged would fail this
    let samples: Vec<i16> = vec![0, 16384, -16384, 32767];
    let bytes = wav_bytes(&samples, 8000);
    let mut media = Media::new_from_bytes(bytes).expect("the wav should open");
    assert_eq!(media.samplerate(), 8000);
    assert_eq!(media.channels(), 1);
    let out = media.fill(8);
    assert_eq!(out.len(), 4);
    // full-scale decoder output is scaled down 128x to the sample unit
    assert_eq!(out[0], 0);
    assert_eq!(out[1], (16384i32 << 16) / 128);
    assert_eq!(out[2], (-16384i32 << 16) / 128);
    assert_eq!(out[3], (32767i32 << 16) / 128);
    let end = media.fill(8);
    assert_eq!(end.len(), 0);
}

#[test]
fn document_parser_reads_structure() {
    let text = b"name: My Station\n# a comment\ngeneral:\n  - hello\n  - world\nmusic:\n  - path: one\n    title: One\n    artist: Someone\n    pre: 1:30\n    post: 5\n".to_vec();
    let doc = sprunk::parse_document(&text);
    let name = doc.get(&b"name".to_vec()).and_then(|n| n.as_bytes()).expect("name scalar");
    assert_eq!(name, &b"My Station".to_vec());
    let general = doc.get(&b"general".to_vec()).expect("general list");
    assert_eq!(general.byte_list(), vec![b"hello".to_vec(), b"world".to_vec()]);
    assert!(doc.get(&b"missing".to_vec()).is_none());
}

#[test]
fn definitions_from_document() {
    let text = b"name: My Station\ninclude:\n  - extra.yaml\nmusic:\n  - path: one\n    title: One\n    artist: Someone\n    pre: 1:30\n    post: 5\n".to_vec();
    let doc = sprunk::parse_document(&text);
    let (defs, includes, prefix) = Definitions::from_doc(&doc).expect("well formed");
    assert_eq!(defs.name.as_deref(), Some("My Station"));
    assert_eq!(includes, vec!["extra.yaml".to_string()]);
    assert!(prefix.is_none());
    assert_eq!(defs.music.len(), 1);
    assert_eq!(defs.music[0].path, "one");
    assert_eq!(defs.music[0].pre_micros, 90_000_000);
    assert_eq!(defs.music[0].post_micros, 5_000_000);
}

#[test]
fn definitions_from_document_rejects_bad_marks() {
    let text =
        b"music:\n  - path: one\n    title: One\n    artist: Someone\n    pre: oops\n    post: 5\n"
            .to_vec();
    let doc = sprunk::parse_document(&text);
    assert!(Definitions::from_doc(&doc).is_err());
    let missing = b"music:\n  - path: one\n    title: One\n    pre: 1\n    post: 5\n".to_vec();
    let doc2 = sprunk::parse_document(&missing);
    assert!(Definitions::from_doc(&doc2).is_err());
}

#[test]
fn radio_index_from_document() {
    let text = b"stations:\n  lofi:\n    files:\n      - one.yaml\n    output: file:out.mp3\n".to_vec();
    let doc = sprunk::parse_document(&text);
    let index = RadioIndex::from_doc(&doc).expect("stations present");
    assert!(index.contains_key(&"lofi".to_string()));
    assert_eq!(index.load(&"lofi".to_string()), Some(vec!["one.yaml".to_string()]));
    let empty = sprunk::parse_document(&b"other: 1\n".to_vec());
    assert!(RadioIndex::from_doc(&empty).is_none());
}

#[test]
fn radio_index_inherits_icecast() {
    // a top-level icecast block is inherited; a station output overrides
    let text = b"icecast:\n  host: example:8000\n  password: SECRET-REDACTED\nstations:\n  lofi:\n    files:\n      - one.yaml\n  quiet:\n    files:\n      - two.yaml\n    output: file:out.mp3\n".to_vec();
    let doc = sprunk::parse_document(&text);
    let index = RadioIndex::from_doc(&doc).expect("stations present");
    match &index.info[0].1.output {
        Output::Icecast { mount, host, schema, user, password } => {
            assert_eq!(mount, "/lofi");
            assert_eq!(host, "example:8000");
            assert_eq!(schema, "http");
            assert_eq!(user, "source");
            assert!(password.is_some());
        }
        _ => panic!("expected the inherited icecast output"),
    }
    match &index.info[1].1.output {
        Output::File(p) => assert_eq!(p, "out.mp3"),
        _ => panic!("the station output must override the inherited icecast"),
    }
}

#[test]
fn definitions_reject_unknown_keys() {
    let doc = sprunk::parse_document(&b"name: x\nbogus: y\n".to_vec());
    assert!(Definitions::from_doc(&doc).is_err());
    let entry = sprunk::parse_document(
        &b"music:\n  - path: one\n    title: One\n    artist: A\n    pre: 1\n    post: 1\n    hue: blue\n"
            .to_vec(),
    );
    assert!(Definitions::from_doc(&entry).is_err());
    let fine = sprunk::parse_document(&b"name: x\n".to_vec());
    assert!(Definitions::from_doc(&fine).is_ok());
}

#[test]
fn definitions_reject_scalar_under_list_key() {
    // a list-valued word holding a scalar is refused, not read as empty
    let doc = sprunk::parse_document(&b"solo: one.wav\n".to_vec());
    match sprunk::Definitions::from_doc(&doc) {
        Err(e) => assert_eq!(e, sprunk::DefError::ExpectedList),
        Ok(_) => panic!("a scalar under a list word must be refused"),
    }
    // an empty value under a list word is a scalar too
    let doc2 = sprunk::parse_document(&b"name: x\ngeneral: y\n".to_vec());
    match sprunk::Definitions::from_doc(&doc2) {
        Err(e) => assert_eq!(e, sprunk::DefError::ExpectedList),
        Ok(_) => panic!("a scalar under a list word must be refused"),
    }
}

#[test]
fn parser_splits_at_first_colon_and_trims() {
    // one plain line: the key and value are trimmed, split at the first colon
    let doc = sprunk::parse_document(&b"name :   My: Station  ".to_vec());
    let name = doc.get(&b"name".to_vec()).and_then(|n| n.as_bytes()).expect("scalar");
    assert_eq!(name, &b"My: Station".to_vec());
    // a line without a colon reads to nothing
    let none = sprunk::parse_document(&b"just words".to_vec());
    assert!(none.get(&b"just words".to_vec()).is_none());
}
