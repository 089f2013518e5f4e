use xmtv_cast::listing::{collect_entries, get, parse_entry, ListingError, ListingItem, VideoUrl};

fn entry(title: &str, share: Option<&str>) -> Result<Option<VideoUrl>, ListingError> {
    parse_entry(title, share)
}

#[test]
fn entry_with_marker_and_date_word() {
    let v = entry("\"莆仙戏 百花亭(一) 斗阵来看戏 2023-12-05\"", Some("https://x.cn/a/b.html"))
        .unwrap()
        .unwrap();
    assert_eq!(v.title, "莆仙戏百花亭");
    assert_eq!(v.name, "莆仙戏 百花亭(一) 斗阵来看戏 2023-12-05");
    assert_eq!(v.url, "https://x.cn/a/b.html");
    assert_eq!(v.time, 20231205);
}

#[test]
fn entry_full_width_parenthesis_and_dotted_date() {
    let v = entry("\"高甲戏 真假王子（三）斗阵来看戏 2024.01.05\"", Some("https://x.cn/p.html"))
        .unwrap()
        .unwrap();
    assert_eq!(v.title, "高甲戏真假王子");
    assert_eq!(v.time, 20240105);
}

#[test]
fn entry_date_from_share_address() {
    let v = entry(
        "\"歌仔戏 陈三五娘斗阵来看戏\"",
        Some("https://mapi.xmtv.cn/a/2024-02-03/detail.html"),
    )
    .unwrap()
    .unwrap();
    assert_eq!(v.title, "歌仔戏陈三五娘");
    assert_eq!(v.time, 20240203);
}

#[test]
fn entry_without_share_is_left_out() {
    assert_eq!(entry("\"歌仔戏 斗阵来看戏 2024-01-01\"", None).unwrap().is_none(), true);
}

#[test]
fn entry_without_episode_number_is_left_out() {
    let r = entry("\"歌仔戏 斗阵来看戏\"", Some("https://x.cn/nodash")).unwrap();
    assert!(r.is_none());
}

#[test]
fn entry_with_bad_number_fails() {
    assert_eq!(entry("\"歌仔戏 斗阵来看戏 第一集\"", Some("https://x.cn/a")).err(), Some(ListingError::EpisodeNumber));
}

#[test]
fn entry_with_number_too_large_fails() {
    assert_eq!(entry("\"歌仔戏 斗阵来看戏 99999999999\"", Some("https://x.cn/a")).err(), Some(ListingError::EpisodeNumber));
}

#[test]
fn entry_with_short_share_address_is_malformed() {
    assert_eq!(entry("\"歌仔戏 斗阵来看戏\"", Some("https://x-y")).err(), Some(ListingError::Malformed));
}

#[test]
fn entry_short_name_without_marker_is_malformed() {
    assert_eq!(entry("\"abc\"", Some("https://x.cn/a")).err(), Some(ListingError::Malformed));
}

#[test]
fn entry_without_marker_skips_fifteen_bytes() {
    // "abcdefghijklmno" is fifteen bytes; the episode word follows.
    let v = entry("\"abcdefghijklmno 7\"", Some("u")).unwrap().unwrap();
    assert_eq!(v.time, 7);
    assert_eq!(v.title, "abcdefghijklmno7");
}

#[test]
fn entry_with_plus_sign_number() {
    let v = entry("\"潮剧 斗阵来看戏 +12\"", Some("u")).unwrap().unwrap();
    assert_eq!(v.time, 12);
}

#[test]
fn collect_reverses_and_skips() {
    let items = vec![
        ListingItem { title: "\"甲 斗阵来看戏 3\"".to_string(), share: Some("a".to_string()) },
        ListingItem { title: "\"乙 斗阵来看戏 2\"".to_string(), share: None },
        ListingItem { title: "\"丙 斗阵来看戏 1\"".to_string(), share: Some("c".to_string()) },
    ];
    let v = collect_entries(&items).unwrap();
    assert_eq!(v.len(), 2);
    assert_eq!(v[0].title, "丙");
    assert_eq!(v[0].time, 1);
    assert_eq!(v[1].title, "甲");
    assert_eq!(v[1].url, "a");
}

#[test]
fn collect_stops_at_failure() {
    let items = vec![
        ListingItem { title: "\"甲 斗阵来看戏 x\"".to_string(), share: Some("a".to_string()) },
        ListingItem { title: "\"ab\"".to_string(), share: Some("c".to_string()) },
    ];
    assert_eq!(collect_entries(&items).err(), Some(ListingError::Malformed));
}

#[test]
fn get_reads_json_listing() {
    let answer = r#"{"data":[
        {"title":"越剧 梁祝（二） 斗阵来看戏 2024-03-02","content_urls":{"share":"https://s/2"}},
        {"title":"越剧 梁祝（一） 斗阵来看戏 2024-03-01","content_urls":{"share":"https://s/1"}},
        {"title":"no share","content_urls":{}}
    ]}"#;
    let v = get(answer).unwrap();
    assert_eq!(v.len(), 2);
    assert_eq!(v[0].time, 20240301);
    assert_eq!(v[1].time, 20240302);
    assert_eq!(v[0].title, "越剧梁祝");
    assert_eq!(v[0].url, "https://s/1");
}

#[test]
fn get_rejects_non_json() {
    assert_eq!(get("<html>").err(), Some(ListingError::Json));
}

#[test]
fn get_rejects_missing_list() {
    assert_eq!(get(r#"{"data": 5}"#).err(), Some(ListingError::NotAList));
    assert_eq!(get(r#"{"other": []}"#).err(), Some(ListingError::NotAList));
}

#[test]
fn get_of_empty_list() {
    assert_eq!(get(r#"{"data": []}"#).unwrap().len(), 0);
}

#[test]
fn duplicate_and_same_as() {
    let v = VideoUrl { title: "t".to_string(), name: "n".to_string(), url: "u".to_string(), time: 3 };
    let w = v.duplicate();
    assert!(v.same_as(&w));
    let x = VideoUrl { title: "t".to_string(), name: "n".to_string(), url: "u".to_string(), time: 4 };
    assert!(!v.same_as(&x));
}
