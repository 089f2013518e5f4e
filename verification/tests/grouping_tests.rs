use xmtv_cast::grouping::resort;
use xmtv_cast::listing::VideoUrl;
use xmtv_cast::store::get_exact;

fn ep(title: &str, name: &str, time: u32) -> VideoUrl {
    VideoUrl { title: title.to_string(), name: name.to_string(), url: format!("u/{name}"), time }
}

#[test]
fn resort_groups_in_first_appearance_order() {
    let urls = vec![ep("甲", "a3", 3), ep("乙", "b1", 1), ep("甲", "a1", 1), ep("甲", "a2", 2)];
    let v = resort(urls);
    assert_eq!(v.len(), 2);
    assert_eq!(v[0].title, "甲");
    assert_eq!(v[1].title, "乙");
    let names: Vec<&str> = v[0].range.iter().map(|u| u.name.as_str()).collect();
    assert_eq!(names, vec!["a1", "a2", "a3"]);
    assert_eq!(v[1].range.len(), 1);
    assert_eq!(v[1].range[0].name, "b1");
}

#[test]
fn resort_is_stable_for_equal_times() {
    let urls = vec![ep("t", "first", 5), ep("t", "early", 1), ep("t", "second", 5), ep("t", "third", 5)];
    let v = resort(urls);
    let names: Vec<&str> = v[0].range.iter().map(|u| u.name.as_str()).collect();
    assert_eq!(names, vec!["early", "first", "second", "third"]);
}

#[test]
fn resort_of_nothing() {
    assert_eq!(resort(vec![]).len(), 0);
}

#[test]
fn get_exact_keeps_the_fetched_list() {
    let fetched = vec![ep("a", "1", 1), ep("b", "2", 2)];
    let stored = vec![ep("b", "2", 2), ep("c", "3", 3)];
    let r = get_exact(fetched, Some(stored));
    assert_eq!(r.len(), 2);
    assert_eq!(r[0].name, "1");
    assert_eq!(r[1].name, "2");
    assert_eq!(r[1].url, "u/2");
}

#[test]
fn get_exact_without_stored_list() {
    let r = get_exact(vec![ep("a", "1", 1)], None);
    assert_eq!(r.len(), 1);
    assert_eq!(r[0].time, 1);
}

#[test]
fn resort_again_gives_the_same_dramas() {
    let urls = vec![ep("甲", "a3", 3), ep("乙", "b2", 2), ep("甲", "a1", 1), ep("乙", "b1", 1), ep("丙", "c", 9)];
    let first = resort(urls);
    let flat: Vec<VideoUrl> = first.iter().flat_map(|v| v.range.iter().map(|u| u.duplicate())).collect();
    let second = resort(flat);
    assert_eq!(first.len(), second.len());
    for (a, b) in first.iter().zip(second.iter()) {
        assert_eq!(a.title, b.title);
        let an: Vec<&str> = a.range.iter().map(|u| u.name.as_str()).collect();
        let bn: Vec<&str> = b.range.iter().map(|u| u.name.as_str()).collect();
        assert_eq!(an, bn);
    }
}
