use vstd::prelude::*;

verus! {

/// How a piece of a printed line is shown.
#[derive(Debug, Clone, Copy, PartialEq, Eq, Structural)]
pub enum Style {
    Plain,
    Blue,
    BoldBlue,
    Red,
    Green,
}

/// A piece of a printed line and its style.
pub struct Segment {
    pub style: Style,
    pub text: String,
}

/// The author of a tweet as the report shows them; `posted_at` is the
/// posting time as it is to be printed.
pub struct Author {
    pub name: String,
    pub screen_name: String,
    pub posted_at: String,
}

/// What the report of a tweet shows of it.
pub struct TweetInfo {
    pub author: Option<Author>,
    pub reply_to: Option<String>,
    pub retweeted: Option<Box<TweetInfo>>,
    pub text: String,
    /// The client it was sent with: its name and its address.
    pub source: Option<(String, String)>,
    pub place: Option<String>,
    pub quoted: Option<Box<TweetInfo>>,
    pub hashtags: Vec<String>,
    pub symbols: Vec<String>,
    /// The expanded form of each link, where there is one.
    pub urls: Vec<Option<String>>,
    pub mentions: Vec<String>,
    /// The kind of each attached media item, as it is to be printed.
    pub media: Option<Vec<String>>,
}

pub open spec fn seg(style: Style, s: Seq<char>) -> (Style, Seq<char>) {
    (style, s)
}

pub open spec fn line_view(l: Seq<Segment>) -> Seq<(Style, Seq<char>)> {
    l.map_values(|s: Segment| (s.style, s.text@))
}

pub open spec fn lines_view(ls: Seq<Vec<Segment>>) -> Seq<Seq<(Style, Seq<char>)>> {
    ls.map_values(|l: Vec<Segment>| line_view(l@))
}

pub open spec fn author_line(a: Author) -> Seq<(Style, Seq<char>)> {
    seq![
        seg(Style::Blue, a.name@),
        seg(Style::Plain, " (@"@),
        seg(Style::BoldBlue, a.screen_name@),
        seg(Style::Plain, ") posted at "@),
        seg(Style::Plain, a.posted_at@),
    ]
}

/// A heading and one line per item, the item after `prefix`; nothing when
/// there are no items.
pub open spec fn section(
    heading: Seq<char>,
    items: Seq<String>,
    prefix: Seq<char>,
    style: Style,
) -> Seq<Seq<(Style, Seq<char>)>> {
    if items.len() == 0 {
        Seq::empty()
    } else {
        seq![seq![seg(Style::Plain, heading)]] + Seq::new(
            items.len(),
            |i: int| seq![seg(Style::Plain, prefix), seg(style, items[i]@)],
        )
    }
}

/// One line for each link that has an expanded form.
pub open spec fn url_lines(us: Seq<Option<String>>) -> Seq<Seq<(Style, Seq<char>)>>
    decreases us.len(),
{
    if us.len() == 0 {
        Seq::empty()
    } else {
        url_lines(us.drop_last()) + match us.last() {
            Some(u) => seq![seq![seg(Style::Plain, "  "@), seg(Style::Plain, u@)]],
            None => Seq::empty(),
        }
    }
}

pub open spec fn author_lines(t: TweetInfo) -> Seq<Seq<(Style, Seq<char>)>> {
    match t.author {
        Some(a) => seq![author_line(a)],
        None => Seq::empty(),
    }
}

pub open spec fn reply_lines(t: TweetInfo) -> Seq<Seq<(Style, Seq<char>)>> {
    match t.reply_to {
        Some(s) => seq![seq![seg(Style::Plain, "\u{279c} in reply to @"@), seg(Style::Blue, s@)]],
        None => Seq::empty(),
    }
}

pub open spec fn source_lines(t: TweetInfo) -> Seq<Seq<(Style, Seq<char>)>> {
    match t.source {
        Some(s) => seq![
            seq![
                seg(Style::Plain, "\u{279c} via "@),
                seg(Style::Plain, s.0@),
                seg(Style::Plain, " ("@),
                seg(Style::Plain, s.1@),
                seg(Style::Plain, ")"@),
            ],
        ],
        None => Seq::empty(),
    }
}

pub open spec fn place_lines(t: TweetInfo) -> Seq<Seq<(Style, Seq<char>)>> {
    match t.place {
        Some(p) => seq![seq![seg(Style::Plain, "\u{279c} from: "@), seg(Style::Plain, p@)]],
        None => Seq::empty(),
    }
}

pub open spec fn url_section(t: TweetInfo) -> Seq<Seq<(Style, Seq<char>)>> {
    if t.urls@.len() == 0 {
        Seq::empty()
    } else {
        seq![seq![seg(Style::Plain, "\u{279c} URLs contained in the tweet:"@)]] + url_lines(t.urls@)
    }
}

pub open spec fn media_lines(t: TweetInfo) -> Seq<Seq<(Style, Seq<char>)>> {
    match t.media {
        Some(m) => seq![seq![seg(Style::Plain, "\u{279c} Media attached to the tweet:"@)]] + Seq::new(
            m@.len(),
            |i: int| seq![seg(Style::Plain, "  A "@), seg(Style::Plain, m@[i]@)],
        ),
        None => Seq::empty(),
    }
}

/// The text of a tweet, the client it was sent with and its place.
pub open spec fn detail_lines(t: TweetInfo) -> Seq<Seq<(Style, Seq<char>)>> {
    seq![seq![seg(Style::Green, t.text@)]] + source_lines(t) + place_lines(t)
}

/// The hashtags, symbols, links, mentioned users and media of a tweet.
pub open spec fn list_lines(t: TweetInfo) -> Seq<Seq<(Style, Seq<char>)>> {
    section(
        "\u{279c} Hashtags contained in the tweet:"@,
        t.hashtags@,
        "  "@,
        Style::Plain,
    ) + section("\u{279c} Symbols contained in the tweet:"@, t.symbols@, "  "@, Style::Plain)
        + url_section(t) + section(
        "\u{279c} Users mentioned in the tweet:"@,
        t.mentions@,
        "  "@,
        Style::BoldBlue,
    ) + media_lines(t)
}

/// The lines that describe a tweet, in the order they are printed: its
/// author, whom it answers, then either the retweeted tweet (and nothing
/// more) or its text, client, place, quoted tweet, hashtags, symbols, links,
/// mentioned users and media.
pub open spec fn report(t: TweetInfo) -> Seq<Seq<(Style, Seq<char>)>>
    decreases t,
{
    match t.retweeted {
        Some(rt) => author_lines(t) + reply_lines(t) + seq![seq![seg(Style::Red, "Retweet \u{279c}"@)]]
            + report(*rt),
        None => {
            let quoted = match t.quoted {
                Some(q) => seq![
                    seq![seg(Style::Red, "\u{279c} Quoting the following status:"@)],
                ] + report(*q),
                None => Seq::empty(),
            };
            author_lines(t) + reply_lines(t) + detail_lines(t) + quoted + list_lines(t)
        },
    }
}

/// `lines` holds, at some place, a line that is just `heading`, followed by
/// one line per item, in order: `prefix`, then the item in `style`.
pub open spec fn holds_list(
    lines: Seq<Seq<(Style, Seq<char>)>>,
    heading: Seq<char>,
    items: Seq<Seq<char>>,
    prefix: Seq<char>,
    style: Style,
) -> bool {
    exists|k: int|
        0 <= k && k + items.len() < lines.len() && #[trigger] lines[k] == seq![(Style::Plain, heading)]
            && forall|j: int|
            0 <= j < items.len() ==> #[trigger] lines[k + 1 + j] == seq![
                (Style::Plain, prefix),
                (style, items[j]),
            ]
}

/// The texts of `items`.
pub open spec fn texts(items: Seq<String>) -> Seq<Seq<char>> {
    items.map_values(|s: String| s@)
}

proof fn lemma_section_held(
    p: Seq<Seq<(Style, Seq<char>)>>,
    q: Seq<Seq<(Style, Seq<char>)>>,
    heading: Seq<char>,
    items: Seq<String>,
    prefix: Seq<char>,
    style: Style,
)
    requires
        items.len() > 0,
    ensures
        holds_list(p + section(heading, items, prefix, style) + q, heading, texts(items), prefix, style),
{
    let sec = section(heading, items, prefix, style);
    let l = p + sec + q;
    let k = p.len() as int;
    assert(l[k] == sec[0]);
    assert forall|j: int| 0 <= j < items.len() implies #[trigger] l[k + 1 + j] == seq![
        (Style::Plain, prefix),
        (style, texts(items)[j]),
    ] by {
        assert(l[k + 1 + j] == sec[1 + j]);
    }
    assert(k + texts(items).len() < l.len());
}

proof fn lemma_url_line(us: Seq<Option<String>>, i: int)
    requires
        0 <= i < us.len(),
        us[i] is Some,
    ensures
        exists|k: int|
            0 <= k < url_lines(us).len() && #[trigger] url_lines(us)[k] == seq![
                (Style::Plain, "  "@),
                (Style::Plain, us[i]->0@),
            ],
    decreases us.len(),
{
    let line = seq![(Style::Plain, "  "@), (Style::Plain, us[i]->0@)];
    if i == us.len() - 1 {
        let k = url_lines(us.drop_last()).len() as int;
        assert(url_lines(us)[k] == line);
    } else {
        lemma_url_line(us.drop_last(), i);
        let k = choose|k: int|
            0 <= k < url_lines(us.drop_last()).len() && #[trigger] url_lines(us.drop_last())[k] == line;
        assert(url_lines(us)[k] == line);
    }
}

/// The lines of a tweet that is not a retweet before its lists.
spec fn report_head(t: TweetInfo) -> Seq<Seq<(Style, Seq<char>)>> {
    let quoted = match t.quoted {
        Some(q) => seq![seq![seg(Style::Red, "\u{279c} Quoting the following status:"@)]] + report(*q),
        None => Seq::empty(),
    };
    author_lines(t) + reply_lines(t) + detail_lines(t) + quoted
}

spec fn hashtag_section(t: TweetInfo) -> Seq<Seq<(Style, Seq<char>)>> {
    section("\u{279c} Hashtags contained in the tweet:"@, t.hashtags@, "  "@, Style::Plain)
}

spec fn symbol_section(t: TweetInfo) -> Seq<Seq<(Style, Seq<char>)>> {
    section("\u{279c} Symbols contained in the tweet:"@, t.symbols@, "  "@, Style::Plain)
}

spec fn mention_section(t: TweetInfo) -> Seq<Seq<(Style, Seq<char>)>> {
    section("\u{279c} Users mentioned in the tweet:"@, t.mentions@, "  "@, Style::BoldBlue)
}

proof fn lemma_report_parts(t: TweetInfo)
    requires
        t.retweeted is None,
    ensures
        report(t) == report_head(t) + hashtag_section(t) + symbol_section(t) + url_section(t)
            + mention_section(t) + media_lines(t),
        report_head(t)[(author_lines(t) + reply_lines(t)).len() as int] == seq![
            (Style::Green, t.text@),
        ],
        (author_lines(t) + reply_lines(t)).len() < report_head(t).len(),
{
    assert(report(t) =~= report_head(t) + hashtag_section(t) + symbol_section(t) + url_section(t)
        + mention_section(t) + media_lines(t));
    let k = (author_lines(t) + reply_lines(t)).len() as int;
    assert(detail_lines(t)[0] == seq![(Style::Green, t.text@)]);
    assert(report_head(t)[k] == detail_lines(t)[0]);
}

proof fn lemma_report_text(t: TweetInfo)
    requires
        t.retweeted is None,
    ensures
        exists|k: int| 0 <= k < report(t).len() && #[trigger] report(t)[k] == seq![(Style::Green, t.text@)],
{
    lemma_report_parts(t);
    let k = (author_lines(t) + reply_lines(t)).len() as int;
    assert(report(t)[k] == report_head(t)[k]);
}

proof fn lemma_report_hashtags(t: TweetInfo)
    requires
        t.retweeted is None,
        t.hashtags@.len() > 0,
    ensures
        holds_list(report(t), "\u{279c} Hashtags contained in the tweet:"@, texts(t.hashtags@), "  "@, Style::Plain),
{
    lemma_report_parts(t);
    let rest = symbol_section(t) + url_section(t) + mention_section(t) + media_lines(t);
    assert(report(t) =~= report_head(t) + hashtag_section(t) + rest);
    lemma_section_held(report_head(t), rest, "\u{279c} Hashtags contained in the tweet:"@, t.hashtags@, "  "@, Style::Plain);
}

proof fn lemma_report_symbols(t: TweetInfo)
    requires
        t.retweeted is None,
        t.symbols@.len() > 0,
    ensures
        holds_list(report(t), "\u{279c} Symbols contained in the tweet:"@, texts(t.symbols@), "  "@, Style::Plain),
{
    lemma_report_parts(t);
    let pre = report_head(t) + hashtag_section(t);
    let rest = url_section(t) + mention_section(t) + media_lines(t);
    assert(report(t) =~= pre + symbol_section(t) + rest);
    lemma_section_held(pre, rest, "\u{279c} Symbols contained in the tweet:"@, t.symbols@, "  "@, Style::Plain);
}

proof fn lemma_report_mentions(t: TweetInfo)
    requires
        t.retweeted is None,
        t.mentions@.len() > 0,
    ensures
        holds_list(report(t), "\u{279c} Users mentioned in the tweet:"@, texts(t.mentions@), "  "@, Style::BoldBlue),
{
    lemma_report_parts(t);
    let pre = report_head(t) + hashtag_section(t) + symbol_section(t) + url_section(t);
    assert(report(t) =~= pre + mention_section(t) + media_lines(t));
    lemma_section_held(pre, media_lines(t), "\u{279c} Users mentioned in the tweet:"@, t.mentions@, "  "@, Style::BoldBlue);
}

proof fn lemma_report_media(t: TweetInfo)
    requires
        t.retweeted is None,
        t.media is Some,
    ensures
        holds_list(report(t), "\u{279c} Media attached to the tweet:"@, texts(t.media->0@), "  A "@, Style::Plain),
{
    lemma_report_parts(t);
    let m = t.media->0;
    let md = media_lines(t);
    let p = report_head(t) + hashtag_section(t) + symbol_section(t) + url_section(t) + mention_section(t);
    let r = report(t);
    let hd = "\u{279c} Media attached to the tweet:"@;
    assert(r == p + md);
    let k = p.len() as int;
    assert(r[k] == md[0]);
    assert forall|j: int| 0 <= j < texts(m@).len() implies #[trigger] r[k + 1 + j] == seq![
        (Style::Plain, "  A "@),
        (Style::Plain, texts(m@)[j]),
    ] by {
        assert(r[k + 1 + j] == md[1 + j]);
    }
    assert(k + texts(m@).len() < r.len());
    assert(r[k] == seq![(Style::Plain, hd)]);
}

proof fn lemma_report_urls(t: TweetInfo, i: int)
    requires
        t.retweeted is None,
        t.urls@.len() > 0,
    ensures
        exists|k: int|
            0 <= k < report(t).len() && #[trigger] report(t)[k] == seq![
                (Style::Plain, "\u{279c} URLs contained in the tweet:"@),
            ],
        0 <= i < t.urls@.len() && t.urls@[i] is Some ==> exists|k: int|
            0 <= k < report(t).len() && #[trigger] report(t)[k] == seq![
                (Style::Plain, "  "@),
                (Style::Plain, t.urls@[i]->0@),
            ],
{
    lemma_report_parts(t);
    let us = url_section(t);
    let p = report_head(t) + hashtag_section(t) + symbol_section(t);
    let r = report(t);
    assert(r =~= p + us + (mention_section(t) + media_lines(t)));
    let k = p.len() as int;
    assert(r[k] == us[0]);
    if 0 <= i < t.urls@.len() && t.urls@[i] is Some {
        lemma_url_line(t.urls@, i);
        let line = seq![(Style::Plain, "  "@), (Style::Plain, t.urls@[i]->0@)];
        let j = choose|j: int| 0 <= j < url_lines(t.urls@).len() && #[trigger] url_lines(t.urls@)[j] == line;
        assert(r[k + 1 + j] == us[1 + j]);
    }
}

/// The report of a tweet that is not a retweet shows its text, and each of
/// its lists that has items under its heading: its hashtags, symbols and
/// mentioned users one per line in order, each link that has an expanded
/// form, and the kind of each attached media item.
pub proof fn law_report_shows_lists(t: TweetInfo, i: int)
    requires
        t.retweeted is None,
    ensures
        exists|k: int| 0 <= k < report(t).len() && #[trigger] report(t)[k] == seq![(Style::Green, t.text@)],
        t.hashtags@.len() > 0 ==> holds_list(
            report(t),
            "\u{279c} Hashtags contained in the tweet:"@,
            texts(t.hashtags@),
            "  "@,
            Style::Plain,
        ),
        t.symbols@.len() > 0 ==> holds_list(
            report(t),
            "\u{279c} Symbols contained in the tweet:"@,
            texts(t.symbols@),
            "  "@,
            Style::Plain,
        ),
        t.mentions@.len() > 0 ==> holds_list(
            report(t),
            "\u{279c} Users mentioned in the tweet:"@,
            texts(t.mentions@),
            "  "@,
            Style::BoldBlue,
        ),
        t.media is Some ==> holds_list(
            report(t),
            "\u{279c} Media attached to the tweet:"@,
            texts(t.media->0@),
            "  A "@,
            Style::Plain,
        ),
        t.urls@.len() > 0 ==> exists|k: int|
            0 <= k < report(t).len() && #[trigger] report(t)[k] == seq![
                (Style::Plain, "\u{279c} URLs contained in the tweet:"@),
            ],
        0 <= i < t.urls@.len() && t.urls@[i] is Some ==> exists|k: int|
            0 <= k < report(t).len() && #[trigger] report(t)[k] == seq![
                (Style::Plain, "  "@),
                (Style::Plain, t.urls@[i]->0@),
            ],
{
    lemma_report_text(t);
    if t.hashtags@.len() > 0 {
        lemma_report_hashtags(t);
    }
    if t.symbols@.len() > 0 {
        lemma_report_symbols(t);
    }
    if t.mentions@.len() > 0 {
        lemma_report_mentions(t);
    }
    if t.media is Some {
        lemma_report_media(t);
    }
    if t.urls@.len() > 0 {
        lemma_report_urls(t, i);
    }
}

fn segment(style: Style, s: &str) -> (r: Segment)
    ensures
        r.style == style,
        r.text@ == s@,
{
    Segment { style, text: s.to_owned() }
}

fn push_line(out: &mut Vec<Vec<Segment>>, line: Vec<Segment>)
    ensures
        lines_view(final(out)@) == lines_view(old(out)@).push(line_view(line@)),
{
    let ghost l = line_view(line@);
    out.push(line);
    assert(lines_view(out@) =~= lines_view(old(out)@).push(l));
}

fn push_section(out: &mut Vec<Vec<Segment>>, heading: &str, items: &Vec<String>, prefix: &str, style: Style)
    ensures
        lines_view(final(out)@) == lines_view(old(out)@) + section(heading@, items@, prefix@, style),
{
    if items.len() == 0 {
        assert(lines_view(out@) =~= lines_view(old(out)@) + section(heading@, items@, prefix@, style));
        return;
    }
    let hl = vec![segment(Style::Plain, heading)];
    assert(line_view(hl@) =~= seq![seg(Style::Plain, heading@)]);
    push_line(out, hl);
    let ghost start = lines_view(out@);
    let n = items.len();
    for i in 0..n
        invariant
            n == items@.len(),
            lines_view(out@) == start + Seq::new(
                i as nat,
                |j: int| seq![seg(Style::Plain, prefix@), seg(style, items@[j]@)],
            ),
    {
        let ghost before = lines_view(out@);
        let line = vec![segment(Style::Plain, prefix), segment(style, items[i].as_str())];
        assert(line_view(line@) =~= seq![seg(Style::Plain, prefix@), seg(style, items@[i as int]@)]);
        push_line(out, line);
        assert(lines_view(out@) =~= start + Seq::new(
            (i + 1) as nat,
            |j: int| seq![seg(Style::Plain, prefix@), seg(style, items@[j]@)],
        ));
    }
    assert(lines_view(out@) =~= lines_view(old(out)@) + section(heading@, items@, prefix@, style));
}

fn push_urls(out: &mut Vec<Vec<Segment>>, urls: &Vec<Option<String>>)
    ensures
        lines_view(final(out)@) == lines_view(old(out)@) + url_lines(urls@),
{
    let n = urls.len();
    assert(urls@.take(0) =~= Seq::<Option<String>>::empty());
    assert(lines_view(out@) =~= lines_view(old(out)@) + url_lines(urls@.take(0)));
    for i in 0..n
        invariant
            n == urls@.len(),
            lines_view(out@) == lines_view(old(out)@) + url_lines(urls@.take(i as int)),
    {
        assert(urls@.take(i + 1).drop_last() =~= urls@.take(i as int));
        assert(urls@.take(i + 1).last() == urls@[i as int]);
        match &urls[i] {
            Some(u) => {
                let line = vec![segment(Style::Plain, "  "), segment(Style::Plain, u.as_str())];
                assert(line_view(line@) =~= seq![seg(Style::Plain, "  "@), seg(Style::Plain, u@)]);
                push_line(out, line);
            },
            None => {},
        }
        assert(lines_view(out@) =~= lines_view(old(out)@) + url_lines(urls@.take(i + 1)));
    }
    assert(urls@.take(n as int) =~= urls@);
}

fn push_opening(t: &TweetInfo, out: &mut Vec<Vec<Segment>>)
    ensures
        lines_view(final(out)@) == lines_view(old(out)@) + author_lines(*t) + reply_lines(*t),
{
    let ghost start = lines_view(out@);
    let ghost head = author_lines(*t);
    let ghost reply = reply_lines(*t);
    match &t.author {
        Some(a) => {
            let line = vec![
                segment(Style::Blue, a.name.as_str()),
                segment(Style::Plain, " (@"),
                segment(Style::BoldBlue, a.screen_name.as_str()),
                segment(Style::Plain, ") posted at "),
                segment(Style::Plain, a.posted_at.as_str()),
            ];
            assert(line_view(line@) =~= author_line(*a));
            push_line(out, line);
        },
        None => {},
    }
    assert(lines_view(out@) =~= start + head);
    match &t.reply_to {
        Some(s) => {
            let line = vec![
                segment(Style::Plain, "\u{279c} in reply to @"),
                segment(Style::Blue, s.as_str()),
            ];
            assert(line_view(line@) =~= seq![seg(Style::Plain, "\u{279c} in reply to @"@), seg(Style::Blue, s@)]);
            push_line(out, line);
        },
        None => {},
    }
    assert(lines_view(out@) =~= start + head + reply);
}

fn push_details(t: &TweetInfo, out: &mut Vec<Vec<Segment>>)
    ensures
        lines_view(final(out)@) == lines_view(old(out)@) + detail_lines(*t),
{
    let ghost start = lines_view(out@);
    let line = vec![segment(Style::Green, t.text.as_str())];
    assert(line_view(line@) =~= seq![seg(Style::Green, t.text@)]);
    push_line(out, line);
    let ghost p1 = lines_view(out@);
    assert(p1 =~= start + seq![seq![seg(Style::Green, t.text@)]]);
    let ghost source = source_lines(*t);
    match &t.source {
        Some(s) => {
            let line = vec![
                segment(Style::Plain, "\u{279c} via "),
                segment(Style::Plain, s.0.as_str()),
                segment(Style::Plain, " ("),
                segment(Style::Plain, s.1.as_str()),
                segment(Style::Plain, ")"),
            ];
            assert(line_view(line@) =~= source[0]);
            push_line(out, line);
        },
        None => {},
    }
    assert(lines_view(out@) =~= p1 + source);
    let ghost p2 = lines_view(out@);
    let ghost place = place_lines(*t);
    match &t.place {
        Some(p) => {
            let line = vec![segment(Style::Plain, "\u{279c} from: "), segment(Style::Plain, p.as_str())];
            assert(line_view(line@) =~= place[0]);
            push_line(out, line);
        },
        None => {},
    }
    assert(lines_view(out@) =~= p2 + place);
    assert(lines_view(out@) =~= start + seq![seq![seg(Style::Green, t.text@)]] + source_lines(*t)
        + place_lines(*t));
}

fn push_lists(t: &TweetInfo, out: &mut Vec<Vec<Segment>>)
    ensures
        lines_view(final(out)@) == lines_view(old(out)@) + list_lines(*t),
{
    let ghost p4 = lines_view(out@);
    push_section(out, "\u{279c} Hashtags contained in the tweet:", &t.hashtags, "  ", Style::Plain);
    push_section(out, "\u{279c} Symbols contained in the tweet:", &t.symbols, "  ", Style::Plain);
    let ghost p5 = lines_view(out@);
    let ghost urls = url_section(*t);
    if t.urls.len() > 0 {
        let line = vec![segment(Style::Plain, "\u{279c} URLs contained in the tweet:")];
        assert(line_view(line@) =~= seq![seg(Style::Plain, "\u{279c} URLs contained in the tweet:"@)]);
        push_line(out, line);
        push_urls(out, &t.urls);
    }
    assert(lines_view(out@) =~= p5 + urls);
    push_section(out, "\u{279c} Users mentioned in the tweet:", &t.mentions, "  ", Style::BoldBlue);
    let ghost p6 = lines_view(out@);
    let ghost media = media_lines(*t);
    match &t.media {
        Some(m) => {
            let line = vec![segment(Style::Plain, "\u{279c} Media attached to the tweet:")];
            assert(line_view(line@) =~= seq![seg(Style::Plain, "\u{279c} Media attached to the tweet:"@)]);
            push_line(out, line);
            let ghost head = lines_view(out@);
            let n = m.len();
            for i in 0..n
                invariant
                    n == m@.len(),
                    lines_view(out@) == head + Seq::new(
                        i as nat,
                        |j: int| seq![seg(Style::Plain, "  A "@), seg(Style::Plain, m@[j]@)],
                    ),
            {
                let line = vec![segment(Style::Plain, "  A "), segment(Style::Plain, m[i].as_str())];
                assert(line_view(line@) =~= seq![seg(Style::Plain, "  A "@), seg(Style::Plain, m@[i as int]@)]);
                push_line(out, line);
                assert(lines_view(out@) =~= head + Seq::new(
                    (i + 1) as nat,
                    |j: int| seq![seg(Style::Plain, "  A "@), seg(Style::Plain, m@[j]@)],
                ));
            }
        },
        None => {},
    }
    assert(lines_view(out@) =~= p6 + media);
    assert(lines_view(out@) =~= p4 + section(
        "\u{279c} Hashtags contained in the tweet:"@,
        t.hashtags@,
        "  "@,
        Style::Plain,
    ) + section("\u{279c} Symbols contained in the tweet:"@, t.symbols@, "  "@, Style::Plain)
        + url_section(*t) + section(
        "\u{279c} Users mentioned in the tweet:"@,
        t.mentions@,
        "  "@,
        Style::BoldBlue,
    ) + media_lines(*t));
}

fn push_report(t: &TweetInfo, out: &mut Vec<Vec<Segment>>)
    ensures
        lines_view(final(out)@) == lines_view(old(out)@) + report(*t),
    decreases t,
{
    let ghost start = lines_view(out@);
    let ghost head = author_lines(*t);
    let ghost reply = reply_lines(*t);
    push_opening(t, out);
    match &t.retweeted {
        Some(rt) => {
            let line = vec![segment(Style::Red, "Retweet \u{279c}")];
            assert(line_view(line@) =~= seq![seg(Style::Red, "Retweet \u{279c}"@)]);
            push_line(out, line);
            push_report(rt, out);
            assert(lines_view(out@) =~= start + head + reply + seq![seq![seg(Style::Red, "Retweet \u{279c}"@)]] + report(**rt));
            return;
        },
        None => {},
    }
    assert(lines_view(out@) == start + head + reply);
    push_details(t, out);
    let ghost p3 = lines_view(out@);
    match &t.quoted {
        Some(q) => {
            let line = vec![segment(Style::Red, "\u{279c} Quoting the following status:")];
            assert(line_view(line@) =~= seq![seg(Style::Red, "\u{279c} Quoting the following status:"@)]);
            push_line(out, line);
            push_report(q, out);
            assert(lines_view(out@) =~= p3 + seq![seq![seg(Style::Red, "\u{279c} Quoting the following status:"@)]] + report(**q));
        },
        None => {
            assert(lines_view(out@) =~= p3);
        },
    }
    let ghost p4 = lines_view(out@);
    push_lists(t, out);
    assert(lines_view(out@) == p4 + list_lines(*t));
    assert(p3 == start + head + reply + detail_lines(*t));
    assert(lines_view(out@) =~= start + head + reply + detail_lines(*t) + (p4.subrange(
        p3.len() as int,
        p4.len() as int,
    )) + list_lines(*t));
    assert(lines_view(out@) =~= start + report(*t));
}

/// The lines that describe `t`, each a list of styled pieces.
pub fn tweet_report(t: &TweetInfo) -> (r: Vec<Vec<Segment>>)
    ensures
        lines_view(r@) == report(*t),
{
    let mut out: Vec<Vec<Segment>> = Vec::new();
    push_report(t, &mut out);
    assert(lines_view(out@) =~= report(*t));
    out
}

} // verus!
