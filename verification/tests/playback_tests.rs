use xmtv_cast::control::{
    after_control, after_episode, choose_render, control_for, device_for, first_step, log_level_for,
    menu_choice, Control, MenuChoice, Step,
};
use xmtv_cast::grouping::Video;
use xmtv_cast::playlist::{extract_video_url, random_drama, Videoplay};

#[test]
fn extracts_the_stream_address() {
    let page = "<video><source src=\"https://cdn/x.m3u8\" type=\"a\"></video>";
    assert_eq!(extract_video_url(page), Some("https://cdn/x.m3u8".to_string()));
}

#[test]
fn extraction_fails_without_tag() {
    assert_eq!(extract_video_url("<video></video>"), None);
}

#[test]
fn extraction_fails_without_closing_quote() {
    assert_eq!(extract_video_url("<source src=\"abc"), None);
    assert_eq!(extract_video_url("<source src="), None);
}

#[test]
fn extraction_fails_on_multibyte_after_tag() {
    assert_eq!(extract_video_url("<source src=戏abc\""), None);
}

#[test]
fn extraction_skips_one_character() {
    assert_eq!(extract_video_url("<source src='abc\""), Some("abc".to_string()));
}

#[test]
fn random_drama_is_in_range() {
    let videos = vec![
        Video { title: "a".to_string(), range: vec![] },
        Video { title: "b".to_string(), range: vec![] },
        Video { title: "c".to_string(), range: vec![] },
    ];
    for _ in 0..50 {
        assert!(random_drama(&videos) < 3);
    }
}

#[test]
fn videoplay_fields() {
    let v = Videoplay::new("第一集".to_string(), "https://cdn/1".to_string());
    assert_eq!(v.name(), "第一集");
    assert_eq!(v.url(), "https://cdn/1");
    assert_eq!(v.url, "https://cdn/1");
}

#[test]
fn chooses_first_fastcast_renderer() {
    let d = vec!["TV (Sony)".to_string(), "FastCast box".to_string(), "FastCast 2".to_string()];
    assert_eq!(choose_render(&d), Some(1));
    assert_eq!(choose_render(&vec!["Fast Cast".to_string()]), None);
    assert_eq!(choose_render(&vec![]), None);
}

#[test]
fn episode_steps() {
    assert_eq!(first_step(3), Step::Play(0));
    assert_eq!(first_step(0), Step::NewDrama);
    assert_eq!(after_episode(0, 3), Step::Play(1));
    assert_eq!(after_episode(2, 3), Step::NewDrama);
    assert_eq!(after_control(0, 3, Control::PreviousEpisode), Step::Play(0));
    assert_eq!(after_control(2, 3, Control::PreviousEpisode), Step::Play(1));
    assert_eq!(after_control(1, 3, Control::NextEpisode), Step::Play(2));
    assert_eq!(after_control(2, 3, Control::NextEpisode), Step::NewDrama);
    assert_eq!(after_control(1, 3, Control::NextDrama), Step::NewDrama);
    assert_eq!(after_control(1, 3, Control::StopCasting), Step::Quit);
}

#[test]
fn menu_positions() {
    assert_eq!(control_for(0), Some(Control::NextDrama));
    assert_eq!(control_for(3), Some(Control::StopCasting));
    assert_eq!(control_for(4), None);
    assert_eq!(menu_choice(0), Some(MenuChoice::CastFromCache));
    assert_eq!(menu_choice(4), Some(MenuChoice::Exit));
    assert_eq!(menu_choice(5), None);
    assert_eq!(log_level_for(1), Some("warn"));
    assert_eq!(log_level_for(3), Some(""));
    assert_eq!(log_level_for(4), None);
    assert_eq!(device_for(0), None);
    assert_eq!(device_for(2), Some(1));
}
