use river::auth::{auth_record_text, parse_auth_record, AuthRecord};
use river::river::{remove_whitespace, Days, River, Tweet, Tweets, ERROR, PENDING, SENT};
use river::schedule::{
    day_schedule, gate, gate_for, is_image_ext, media_kind, next_slot, wait_after_post, Gate,
    MediaKind,
};

const SAMPLE: &str = "schedule]\n\nmon] 10  13\t16 #monday\nTUE] 9\nsun]   \n\ntweet] Hello\nworld\nimage] ./pics/a.png\nstate] sent\n\nimage] b.jpg\ntweet] Second\n";

#[test]
fn new_values_are_empty() {
    let _days = Days::new();
    let t = Tweet::new();
    assert_eq!(t.text, "");
    assert_eq!(t.image, "");
    assert_eq!(t.state, "");
    let q = Tweets::new();
    assert!(q.queue.is_empty());
    let r = River::new();
    assert!(r.tweets.queue.is_empty());
    for d in ["mon", "tue", "wed", "thu", "fri", "sat", "sun"] {
        assert_eq!(r.get_day(d), "");
    }
}

#[test]
fn parse_load_reads_days_and_tweets() {
    let mut r = River::new();
    r.parse_load(SAMPLE.to_string());
    assert_eq!(r.get_day("mon"), "10 13 16 #monday");
    assert_eq!(r.get_day("Mon"), "10 13 16 #monday");
    assert_eq!(r.get_day("tue"), "9");
    assert_eq!(r.get_day("wed"), "");
    assert_eq!(r.get_day("sun"), "");
    assert_eq!(r.get_day("monday"), "");
    assert_eq!(r.tweets.queue.len(), 2);
    assert_eq!(r.tweets.queue[0].text, "Helloworld");
    assert_eq!(r.tweets.queue[0].image, "./pics/a.png");
    assert_eq!(r.tweets.queue[0].state, "sent");
    assert_eq!(r.tweets.queue[1].text, "Second");
    assert_eq!(r.tweets.queue[1].image, "b.jpg");
    assert_eq!(r.tweets.queue[1].state, "");
}

#[test]
fn parse_load_keys_of_fields_are_exact() {
    // `Tweet]` queues a tweet, but only the exact key `tweet` fills its text.
    let mut r = River::new();
    r.parse_load("Tweet] ignored\nimage] x.png".to_string());
    assert_eq!(r.tweets.queue.len(), 1);
    assert_eq!(r.tweets.queue[0].text, "");
    assert_eq!(r.tweets.queue[0].image, "x.png");
}

#[test]
fn parse_load_blank_lines_split_blocks() {
    let mut r = River::new();
    r.parse_load("tweet] one\n\n\nimage] two.png".to_string());
    assert_eq!(r.tweets.queue.len(), 2);
    assert_eq!(r.tweets.queue[0].text, "one");
    assert_eq!(r.tweets.queue[0].image, "");
    assert_eq!(r.tweets.queue[1].text, "");
    assert_eq!(r.tweets.queue[1].image, "two.png");
}

#[test]
fn parse_load_block_of_fields_is_a_tweet() {
    let mut r = River::new();
    r.parse_load("image] pic.png".to_string());
    assert_eq!(r.tweets.queue.len(), 1);
    assert_eq!(r.tweets.queue[0].image, "pic.png");
    assert_eq!(r.tweets.queue[0].text, "");
    assert_eq!(r.tweets.queue[0].state, "");
    r.parse_load("state] Sent\nmore\n\nIMAGE] x.png\n\nimage] a.png\ntweet] t\n\n# image] note".to_string());
    assert_eq!(r.tweets.queue.len(), 4);
    assert_eq!(r.tweets.queue[1].state, "Sentmore");
    assert_eq!(r.tweets.queue[2].image, "");
    assert_eq!(r.tweets.queue[3].image, "a.png");
    assert_eq!(r.tweets.queue[3].text, "t");
}

#[test]
fn parse_load_value_stops_at_second_bracket() {
    let mut r = River::new();
    r.parse_load("fri] 8 ] 9".to_string());
    assert_eq!(r.get_day("fri"), "8");
}

#[test]
fn parse_load_keeps_earlier_tweets() {
    let mut r = River::new();
    r.parse_load("tweet] a".to_string());
    r.parse_load("tweet] b\nsat] 7".to_string());
    assert_eq!(r.tweets.queue.len(), 2);
    assert_eq!(r.tweets.queue[0].text, "a");
    assert_eq!(r.tweets.queue[1].text, "b");
    assert_eq!(r.get_day("SAT"), "7");
}

fn expected_text(days: [&str; 7], entries: &str) -> String {
    let mut s = String::new();
    s.push_str("schedule]\n\n");
    s.push_str("# Times using 24-hour clock and daily tags, as much as you like.\n");
    s.push_str("# sun] 10 13 16 #sundaytag\n\n");
    let names = ["mon", "tue", "wed", "thu", "fri", "sat", "sun"];
    for i in 0..7 {
        s.push_str(&format!("{}] {}\n", names[i], days[i]));
    }
    s.push_str("\n\n");
    s.push_str("tweets]\n\n");
    s.push_str("# tweet] Message to tweet! #cool\n");
    s.push_str("# image] Image-to.tweet\n");
    s.push_str("# state] Pending | Sent | Error <- Handled by the application.\n\n");
    s.push_str("# All fields are optional.\n");
    s.push_str("# If you want you can send a single tweet] or a single image].\n\n");
    s.push_str(entries);
    s
}

#[test]
fn to_text_of_empty_river() {
    let r = River::new();
    assert_eq!(r.to_text(false), expected_text(["", "", "", "", "", "", ""], ""));
}

#[test]
fn to_text_writes_days_and_entries() {
    let mut r = River::new();
    r.parse_load(SAMPLE.to_string());
    let text = r.to_text(false);
    let entries = "tweet] Helloworld\nimage] ./pics/a.png\nstate] Sent\n\ntweet] Second\nimage] b.jpg\nstate] Pending\n\n";
    assert_eq!(text, expected_text(["10 13 16 #monday", "9", "", "", "", "", ""], entries));
}

#[test]
fn to_text_state_labels() {
    let mut r = River::new();
    for (state, label) in [("PENDING", "Pending"), ("sent", "Sent"), ("Error", "Error"), ("", "Pending"), ("later", "Pending"), ("2 pm", "Pending"), ("pending", "Pending")] {
        let mut t = Tweet::new();
        t.state = state.to_string();
        r.tweets.queue.push(t);
        let text = r.to_text(false);
        assert!(text.ends_with(&format!("state] {}\n\n", label)), "{} -> {}", state, label);
    }
    assert_eq!(PENDING, "pending");
    assert_eq!(SENT, "sent");
    assert_eq!(ERROR, "error");
}

#[test]
fn to_text_with_name_as_text() {
    let mut r = River::new();
    r.append_new("/home/me/pics/my-cool_pic.v2.png".to_string());
    r.append_new("./other/./".to_string());
    let mut t = Tweet::new();
    t.text = "kept".to_string();
    t.image = "z-z.png".to_string();
    r.tweets.queue.push(t);
    let text = r.to_text(true);
    assert!(text.contains("tweet] my cool pic v2 png\nimage] /home/me/pics/my-cool_pic.v2.png\n"));
    assert!(text.contains("tweet] other\nimage] ./other/./\n"));
    assert!(text.contains("tweet] kept\nimage] z-z.png\n"));
    let plain = r.to_text(false);
    assert!(plain.contains("tweet] \nimage] /home/me/pics/my-cool_pic.v2.png\n"));
}

#[test]
fn text_of_joined_queues() {
    let mut whole = River::new();
    whole.parse_load(SAMPLE.to_string());
    let mut first = River::new();
    first.parse_load(SAMPLE.to_string());
    let second_tweet = first.tweets.queue.pop().unwrap();
    let mut second = River::new();
    second.parse_load(SAMPLE.to_string());
    second.tweets.queue = vec![second_tweet];
    let mut none = River::new();
    none.parse_load(SAMPLE.to_string());
    none.tweets.queue.clear();
    let head = none.to_text(false).len();
    let joined = format!("{}{}", first.to_text(false), &second.to_text(false)[head..]);
    assert_eq!(whole.to_text(false), joined);
}

#[test]
fn text_reads_back() {
    let mut r = River::new();
    r.parse_load(SAMPLE.to_string());
    let text = r.to_text(false);
    let mut again = River::new();
    again.parse_load(text.clone());
    assert_eq!(again.to_text(false), text);
    let mut third = River::new();
    third.parse_load(again.to_text(false));
    assert_eq!(third.to_text(false), again.to_text(false));
    for d in ["mon", "tue", "wed", "thu", "fri", "sat", "sun"] {
        assert_eq!(again.get_day(d), r.get_day(d));
    }
    assert_eq!(again.tweets.queue.len(), 2);
    assert_eq!(again.tweets.queue[0].text, "Helloworld");
    assert_eq!(again.tweets.queue[0].state, "Sent");
    assert_eq!(again.tweets.queue[1].state, "Pending");
}

#[test]
fn append_new_queues_new_images_once() {
    let mut r = River::new();
    r.append_new("a.png".to_string());
    assert_eq!(r.tweets.queue.len(), 1);
    assert_eq!(r.tweets.queue[0].image, "a.png");
    assert_eq!(r.tweets.queue[0].text, "");
    assert_eq!(r.tweets.queue[0].state, "");
    r.append_new("  a.png \n".to_string());
    assert_eq!(r.tweets.queue.len(), 1);
    r.append_new("b.png".to_string());
    r.append_new("b.png".to_string());
    assert_eq!(r.tweets.queue.len(), 2);
    assert_eq!(r.tweets.queue[1].image, "b.png");
}

#[test]
fn remove_whitespace_collapses_runs() {
    assert_eq!(remove_whitespace("  a \t b\n\r c  "), "a b c");
    assert_eq!(remove_whitespace(""), "");
    assert_eq!(remove_whitespace(" \u{3000}\u{a0} "), "");
    assert_eq!(remove_whitespace("x\u{2003}y"), "x y");
    let once = remove_whitespace(" p  q ");
    assert_eq!(remove_whitespace(&once), once);
}

#[test]
fn day_schedule_lists_coming_hours() {
    assert_eq!(day_schedule("10 13 16 #tag 13 25 9", 11), vec![13, 16]);
    assert_eq!(day_schedule("24 +12 7  8", 0), vec![7, 8, 12, 24]);
    assert_eq!(day_schedule("", 0), Vec::<u32>::new());
    assert_eq!(day_schedule("4294967296 -1 x", 0), Vec::<u32>::new());
    assert_eq!(day_schedule("10\t11 12", 0), vec![12]);
}

#[test]
fn next_slot_clamps_midnight() {
    assert_eq!(next_slot(&vec![]), None);
    assert_eq!(next_slot(&vec![9, 10]), Some((9, 0, 0)));
    assert_eq!(next_slot(&vec![24]), Some((23, 59, 59)));
}

#[test]
fn wait_after_post_counts_to_next_hour() {
    assert_eq!(wait_after_post(0), (60, 3601));
    assert_eq!(wait_after_post(59), (1, 61));
}

#[test]
fn image_extensions() {
    assert!(is_image_ext("png"));
    assert!(is_image_ext("JPG"));
    assert!(is_image_ext("Jpeg"));
    assert!(is_image_ext("bmp"));
    assert!(is_image_ext("gif"));
    assert!(!is_image_ext("webp"));
    assert!(!is_image_ext("txt"));
    assert!(!is_image_ext(""));
}

#[test]
fn media_kinds() {
    assert_eq!(media_kind("jpg"), Some(MediaKind::Jpg));
    assert_eq!(media_kind("jpeg"), Some(MediaKind::Jpg));
    assert_eq!(media_kind("gif"), Some(MediaKind::Gif));
    assert_eq!(media_kind("png"), Some(MediaKind::Png));
    assert_eq!(media_kind("webp"), Some(MediaKind::Webp));
    assert_eq!(media_kind("mp4"), Some(MediaKind::Mp4));
    assert_eq!(media_kind("JPG"), None);
    assert_eq!(media_kind("bmp"), None);
}

#[test]
fn gate_by_state() {
    assert_eq!(gate("Wed, 18 Feb 2015 23:16:09 GMT"), Gate::Sent);
    assert_eq!(gate("Tue, 1 Jul 2003 10:52:37 +0200"), Gate::Sent);
    assert_eq!(gate(" Error "), Gate::Halt);
    assert_eq!(gate("pending"), Gate::MarkError);
    assert_eq!(gate(" Pending "), Gate::MarkError);
    assert_eq!(gate(""), Gate::MarkError);
    assert_eq!(gate("later"), Gate::MarkError);
    assert_eq!(gate_for("error", true), Gate::Sent);
    assert_eq!(gate_for("ERROR", false), Gate::Halt);
    assert_eq!(gate_for("sent", false), Gate::MarkError);
}

#[test]
fn auth_record_reads_and_writes() {
    let rec = parse_auth_record("123\nbob\nkey\nsecret").unwrap();
    assert_eq!(rec.user_id, 123);
    assert_eq!(rec.username, "bob");
    assert_eq!(rec.key, "key");
    assert_eq!(rec.secret, "secret");
    assert_eq!(auth_record_text(&rec), "123\nbob\nkey\nsecret");
    let rec = parse_auth_record("+7\na\nb\nc\nextra").unwrap();
    assert_eq!(rec.user_id, 7);
    assert_eq!(rec.secret, "c");
    assert!(parse_auth_record("abc\na\nb\nc").is_none());
    assert!(parse_auth_record("1\na\nb").is_none());
    assert!(parse_auth_record("").is_none());
    assert!(parse_auth_record("18446744073709551616\na\nb\nc").is_none());
    assert_eq!(parse_auth_record("18446744073709551615\na\nb\nc").unwrap().user_id, u64::MAX);
    let rec = AuthRecord { user_id: 0, username: "x".to_string(), key: "".to_string(), secret: "s".to_string() };
    let text = auth_record_text(&rec);
    assert_eq!(text, "0\nx\n\ns");
    let back = parse_auth_record(&text).unwrap();
    assert_eq!(back.user_id, 0);
    assert_eq!(back.username, "x");
    assert_eq!(back.key, "");
    assert_eq!(back.secret, "s");
}
