use river::report::{tweet_report, Author, Segment, Style, TweetInfo};

fn bare(text: &str) -> TweetInfo {
    TweetInfo {
        author: None,
        reply_to: None,
        retweeted: None,
        text: text.to_string(),
        source: None,
        place: None,
        quoted: None,
        hashtags: vec![],
        symbols: vec![],
        urls: vec![],
        mentions: vec![],
        media: None,
    }
}

fn show(lines: &[Vec<Segment>]) -> Vec<Vec<(Style, String)>> {
    lines
        .iter()
        .map(|l| l.iter().map(|s| (s.style, s.text.clone())).collect())
        .collect()
}

fn plain(s: &str) -> (Style, String) {
    (Style::Plain, s.to_string())
}

#[test]
fn report_of_bare_tweet_is_its_text() {
    let r = tweet_report(&bare("hi"));
    assert_eq!(show(&r), vec![vec![(Style::Green, "hi".to_string())]]);
}

#[test]
fn report_of_retweet_stops_after_the_retweeted_tweet() {
    let mut t = bare("ignored");
    t.author = Some(Author {
        name: "Ann".to_string(),
        screen_name: "ann".to_string(),
        posted_at: "today".to_string(),
    });
    t.reply_to = Some("bob".to_string());
    t.hashtags = vec!["never".to_string()];
    t.retweeted = Some(Box::new(bare("inner")));
    let r = tweet_report(&t);
    assert_eq!(
        show(&r),
        vec![
            vec![
                (Style::Blue, "Ann".to_string()),
                plain(" (@"),
                (Style::BoldBlue, "ann".to_string()),
                plain(") posted at "),
                plain("today"),
            ],
            vec![plain("\u{279c} in reply to @"), (Style::Blue, "bob".to_string())],
            vec![(Style::Red, "Retweet \u{279c}".to_string())],
            vec![(Style::Green, "inner".to_string())],
        ]
    );
}

#[test]
fn report_lists_every_section() {
    let mut t = bare("body");
    t.source = Some(("app".to_string(), "http://app".to_string()));
    t.place = Some("Here".to_string());
    t.quoted = Some(Box::new(bare("q")));
    t.hashtags = vec!["a".to_string(), "b".to_string()];
    t.symbols = vec![];
    t.urls = vec![None, Some("http://x".to_string())];
    t.mentions = vec!["m".to_string()];
    t.media = Some(vec!["Photo".to_string()]);
    let r = tweet_report(&t);
    assert_eq!(
        show(&r),
        vec![
            vec![(Style::Green, "body".to_string())],
            vec![plain("\u{279c} via "), plain("app"), plain(" ("), plain("http://app"), plain(")")],
            vec![plain("\u{279c} from: "), plain("Here")],
            vec![(Style::Red, "\u{279c} Quoting the following status:".to_string())],
            vec![(Style::Green, "q".to_string())],
            vec![plain("\u{279c} Hashtags contained in the tweet:")],
            vec![plain("  "), plain("a")],
            vec![plain("  "), plain("b")],
            vec![plain("\u{279c} URLs contained in the tweet:")],
            vec![plain("  "), plain("http://x")],
            vec![plain("\u{279c} Users mentioned in the tweet:")],
            vec![plain("  "), (Style::BoldBlue, "m".to_string())],
            vec![plain("\u{279c} Media attached to the tweet:")],
            vec![plain("  A "), plain("Photo")],
        ]
    );
}

#[test]
fn report_shows_url_heading_even_without_expanded_links() {
    let mut t = bare("x");
    t.urls = vec![None];
    t.media = Some(vec![]);
    let r = tweet_report(&t);
    assert_eq!(
        show(&r),
        vec![
            vec![(Style::Green, "x".to_string())],
            vec![plain("\u{279c} URLs contained in the tweet:")],
            vec![plain("\u{279c} Media attached to the tweet:")],
        ]
    );
}
