use terrarium::recent::{
    days_to_ymd, iso_timestamp, iso_timestamp_at, plant_index, recent_file_path, recent_file_path_in,
    record_recent,
    record_recent_in, RecentFile, MAX_RECENT,
};

fn entry(path: &str, plant: u8, opened_at: &str) -> RecentFile {
    RecentFile { path: path.to_string(), plant, opened_at: opened_at.to_string() }
}

#[test]
fn plant_index_is_deterministic() {
    let idx1 = plant_index("/Users/alice/hello.tsx");
    let idx2 = plant_index("/Users/alice/hello.tsx");
    assert_eq!(idx1, idx2);
}

#[test]
fn plant_index_in_range() {
    for i in 0..200 {
        let path = format!("/tmp/test-{i}.tsx");
        let idx = plant_index(&path);
        assert!(idx < 6, "plant index {idx} out of range for {path}");
    }
}

#[test]
fn plant_index_varies_across_paths() {
    let indices: std::collections::HashSet<u8> =
        (0..100).map(|i| plant_index(&format!("/projects/file-{i}.tsx"))).collect();
    assert!(indices.len() >= 3);
}

#[test]
fn plant_index_known_values() {
    // "a" hashes to 97, "ab" to 97 * 31 + 98 = 3105.
    assert_eq!(plant_index(""), 0);
    assert_eq!(plant_index("a"), (97 % 6) as u8);
    assert_eq!(plant_index("ab"), (3105 % 6) as u8);
}

#[test]
fn plant_index_hashes_utf8_bytes() {
    // 'é' is the two bytes 0xC3 0xA9: (195 * 31 + 169) % 6.
    assert_eq!(plant_index("é"), ((195u32 * 31 + 169) % 6) as u8);
}

#[test]
fn iso_timestamp_format() {
    let ts = iso_timestamp();
    assert!(ts.ends_with('Z'));
    assert_eq!(ts.len(), 20);
    assert_eq!(&ts[4..5], "-");
    assert_eq!(&ts[7..8], "-");
    assert_eq!(&ts[10..11], "T");
    assert_eq!(&ts[13..14], ":");
    assert_eq!(&ts[16..17], ":");
}

#[test]
fn iso_timestamp_at_known_instants() {
    assert_eq!(iso_timestamp_at(0), "1970-01-01T00:00:00Z");
    assert_eq!(iso_timestamp_at(1_718_447_400), "2024-06-15T10:30:00Z");
    assert_eq!(iso_timestamp_at(951_782_400), "2000-02-29T00:00:00Z");
    assert_eq!(iso_timestamp_at(86_399), "1970-01-01T23:59:59Z");
}

#[test]
fn days_to_ymd_epoch() {
    assert_eq!(days_to_ymd(0), (1970, 1, 1));
}

#[test]
fn days_to_ymd_known_date() {
    assert_eq!(days_to_ymd(19723), (2024, 1, 1));
}

#[test]
fn days_to_ymd_leap_days() {
    assert_eq!(days_to_ymd(11016), (2000, 2, 29));
    assert_eq!(days_to_ymd(11017), (2000, 3, 1));
    assert_eq!(days_to_ymd(19782), (2024, 2, 29));
}

#[test]
fn record_recent_adds_and_caps() {
    let mut list: Vec<RecentFile> = Vec::new();
    for i in 0..7 {
        let path = format!("/tmp/file-{i}.tsx");
        list = record_recent_in(list, &path, "2024-01-01T00:00:00Z".to_string());
    }
    assert_eq!(list.len(), 6);
    assert_eq!(list[0].path, "/tmp/file-6.tsx");
    assert_eq!(list[5].path, "/tmp/file-1.tsx");
    for (k, e) in list.iter().enumerate() {
        assert_eq!(e.path, format!("/tmp/file-{}.tsx", 6 - k));
        assert_eq!(e.plant, plant_index(&e.path));
    }
}

#[test]
fn record_recent_bumps_existing_to_front() {
    let list = vec![
        entry("/tmp/a.tsx", 1, "2024-01-01T00:00:00Z"),
        entry("/tmp/b.tsx", 2, "2024-01-01T00:00:00Z"),
        entry("/tmp/c.tsx", 3, "2024-01-01T00:00:00Z"),
    ];
    let list = record_recent_in(list, "/tmp/b.tsx", iso_timestamp());
    assert_eq!(list[0].path, "/tmp/b.tsx");
    assert_eq!(list[0].plant, 2);
    assert_eq!(list.len(), 3);
}

#[test]
fn record_recent_refreshes_time_and_keeps_order() {
    let list = vec![
        entry("/tmp/a.tsx", 1, "2024-01-01T00:00:00Z"),
        entry("/tmp/b.tsx", 2, "2024-01-01T00:00:00Z"),
        entry("/tmp/c.tsx", 3, "2024-01-01T00:00:00Z"),
    ];
    let list = record_recent_in(list, "/tmp/c.tsx", "2025-06-15T10:30:00Z".to_string());
    let paths: Vec<&str> = list.iter().map(|e| e.path.as_str()).collect();
    assert_eq!(paths, vec!["/tmp/c.tsx", "/tmp/a.tsx", "/tmp/b.tsx"]);
    assert_eq!(list[0].opened_at, "2025-06-15T10:30:00Z");
    assert_eq!(list[0].plant, 3);
    assert_eq!(list[1].opened_at, "2024-01-01T00:00:00Z");
}

#[test]
fn record_recent_into_empty_list() {
    let list = record_recent_in(Vec::new(), "/tmp/a.tsx", "2025-01-01T00:00:00Z".to_string());
    assert_eq!(list.len(), 1);
    assert_eq!(list[0].path, "/tmp/a.tsx");
    assert_eq!(list[0].plant, plant_index("/tmp/a.tsx"));
    assert_eq!(list[0].opened_at, "2025-01-01T00:00:00Z");
}

#[test]
fn record_recent_full_list_rerecord_keeps_six() {
    let mut list: Vec<RecentFile> = Vec::new();
    for i in 0..6 {
        list = record_recent_in(list, &format!("/p/{i}.tsx"), "t".to_string());
    }
    let list = record_recent_in(list, "/p/0.tsx", "u".to_string());
    assert_eq!(list.len(), MAX_RECENT);
    assert_eq!(list[0].path, "/p/0.tsx");
    assert_eq!(list[5].path, "/p/1.tsx");
}

#[test]
fn plant_index_is_deterministic_for_same_path() {
    let unique_path = "/tmp/__terrarium_test_determinism_12345.tsx";
    let list1 = record_recent(Vec::new(), unique_path);
    let plant1 = list1.iter().find(|e| e.path == unique_path).expect("should contain the recorded path").plant;
    let list2 = record_recent(list1, unique_path);
    let plant2 = list2.iter().find(|e| e.path == unique_path).expect("should contain the recorded path").plant;
    assert_eq!(plant1, plant2, "plant index should be deterministic");
}

#[test]
fn record_recent_places_entry_at_front() {
    let unique_path = "/tmp/__terrarium_test_front_67890.tsx";
    let start = vec![entry("/tmp/other.tsx", 0, "2024-01-01T00:00:00Z")];
    let list = record_recent(start, unique_path);
    assert_eq!(list[0].path, unique_path, "most recently recorded file should be at index 0");
    assert_eq!(list[0].opened_at.len(), 20);
    assert!(list[0].opened_at.ends_with('Z'));
    assert_eq!(list.len(), 2);
}

#[test]
fn recent_file_path_is_under_cache_dir() {
    let path = recent_file_path();
    assert!(path.contains(".terrarium"));
    assert!(path.ends_with("recent-files.json"));
}

#[test]
fn recent_file_path_joins_once() {
    assert_eq!(recent_file_path_in("/home/u/.terrarium"), "/home/u/.terrarium/recent-files.json");
    assert_eq!(recent_file_path_in("/cache/"), "/cache/recent-files.json");
    assert_eq!(recent_file_path(), recent_file_path_in(&terrarium::bundler::cache_dir()));
}
