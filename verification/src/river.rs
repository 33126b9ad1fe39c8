use vstd::prelude::*;

use crate::text::{
    append_chars, chars_of, collapse_chars, collapse_ws, eq_lower, has_char, lower_eq, same_chars,
    split_blocks, split_blocks_chars, split_chars, split_on, string_of, trim, trim_chars, views,
    file_name, spaced_name, lowered, lemma_lower_eq_lowered,
};

verus! {

/// The hours and tags planned for each day of the week.
#[derive(Debug)]
pub struct Days {
    mon: String,
    tue: String,
    wed: String,
    thu: String,
    fri: String,
    sat: String,
    sun: String,
}

impl View for Days {
    type V = Seq<Seq<char>>;

    /// The seven entries, Monday first.
    closed spec fn view(&self) -> Seq<Seq<char>> {
        seq![self.mon@, self.tue@, self.wed@, self.thu@, self.fri@, self.sat@, self.sun@]
    }
}

/// What a tweet holds, as character sequences.
pub struct TweetView {
    pub text: Seq<char>,
    pub image: Seq<char>,
    pub state: Seq<char>,
}

/// A tweet that waits in the queue: its text, the image to attach and its
/// state.
#[derive(Debug, Clone)]
pub struct Tweet {
    pub text: String,
    pub image: String,
    pub state: String,
}

impl View for Tweet {
    type V = TweetView;

    open spec fn view(&self) -> TweetView {
        TweetView { text: self.text@, image: self.image@, state: self.state@ }
    }
}

/// The tweets in queue order.
#[derive(Debug)]
pub struct Tweets {
    pub queue: Vec<Tweet>,
}

/// What a river holds: the seven day entries and the queued tweets.
pub struct RiverView {
    pub days: Seq<Seq<char>>,
    pub tweets: Seq<TweetView>,
}

/// The schedule and the queue of tweets that a river file describes.
pub struct River {
    pub days: Days,
    pub tweets: Tweets,
}

pub open spec fn tweets_view(q: Seq<Tweet>) -> Seq<TweetView> {
    q.map_values(|t: Tweet| t@)
}

impl View for River {
    type V = RiverView;

    open spec fn view(&self) -> RiverView {
        RiverView { days: self.days@, tweets: tweets_view(self.tweets.queue@) }
    }
}

pub open spec fn empty_tweet() -> TweetView {
    TweetView { text: Seq::empty(), image: Seq::empty(), state: Seq::empty() }
}

pub open spec fn no_days() -> Seq<Seq<char>> {
    seq![Seq::empty(), Seq::empty(), Seq::empty(), Seq::empty(), Seq::empty(), Seq::empty(), Seq::empty()]
}

impl Days {
    pub fn new() -> (d: Days)
        ensures
            d@ == no_days(),
    {
        let mon = String::new();
        let tue = String::new();
        let wed = String::new();
        let thu = String::new();
        let fri = String::new();
        let sat = String::new();
        let sun = String::new();
        Days { mon, tue, wed, thu, fri, sat, sun }
    }

    /// A week always holds seven day entries.
    pub proof fn law_seven_days(&self)
        ensures
            self@.len() == 7,
    {
    }

    fn set(&mut self, d: usize, v: String)
        requires
            d < 7,
        ensures
            final(self)@ == old(self)@.update(d as int, v@),
    {
        match d {
            0 => self.mon = v,
            1 => self.tue = v,
            2 => self.wed = v,
            3 => self.thu = v,
            4 => self.fri = v,
            5 => self.sat = v,
            _ => self.sun = v,
        }
        assert(self@ =~= old(self)@.update(d as int, v@));
    }

    fn get(&self, d: usize) -> (r: String)
        requires
            d < 7,
        ensures
            r@ == self@[d as int],
    {
        match d {
            0 => self.mon.clone(),
            1 => self.tue.clone(),
            2 => self.wed.clone(),
            3 => self.thu.clone(),
            4 => self.fri.clone(),
            5 => self.sat.clone(),
            _ => self.sun.clone(),
        }
    }
}

impl Tweet {
    pub fn new() -> (t: Tweet)
        ensures
            t@ == empty_tweet(),
    {
        let text = String::new();
        let image = String::new();
        let state = String::new();
        Tweet { text, image, state }
    }
}

impl Tweets {
    pub fn new() -> (t: Tweets)
        ensures
            t.queue@.len() == 0,
    {
        let queue = Vec::new();
        Tweets { queue }
    }
}

impl River {
    pub fn new() -> (r: River)
        ensures
            r@.days == no_days(),
            r@.tweets.len() == 0,
    {
        let days = Days::new();
        let tweets = Tweets::new();
        River { days, tweets }
    }
}

pub const TWEET: &'static str = "tweet";
pub const IMAGE: &'static str = "image";
pub const STATE: &'static str = "state";

pub const PENDING: &'static str = "pending";
pub const SENT: &'static str = "sent";
pub const ERROR: &'static str = "error";

pub open spec fn kw_tweet() -> Seq<char> {
    seq!['t', 'w', 'e', 'e', 't']
}

pub open spec fn kw_image() -> Seq<char> {
    seq!['i', 'm', 'a', 'g', 'e']
}

pub open spec fn kw_state() -> Seq<char> {
    seq!['s', 't', 'a', 't', 'e']
}

/// The short name of day `d` of the week, Monday being day 0.
pub open spec fn day_name(d: int) -> Seq<char> {
    if d == 0 {
        seq!['m', 'o', 'n']
    } else if d == 1 {
        seq!['t', 'u', 'e']
    } else if d == 2 {
        seq!['w', 'e', 'd']
    } else if d == 3 {
        seq!['t', 'h', 'u']
    } else if d == 4 {
        seq!['f', 'r', 'i']
    } else if d == 5 {
        seq!['s', 'a', 't']
    } else {
        seq!['s', 'u', 'n']
    }
}

/// The day that `k` names, matched as `k.to_lowercase()` against the short
/// day names.
pub open spec fn day_index(k: Seq<char>) -> Option<int> {
    if lower_eq(k, day_name(0)) {
        Some(0)
    } else if lower_eq(k, day_name(1)) {
        Some(1)
    } else if lower_eq(k, day_name(2)) {
        Some(2)
    } else if lower_eq(k, day_name(3)) {
        Some(3)
    } else if lower_eq(k, day_name(4)) {
        Some(4)
    } else if lower_eq(k, day_name(5)) {
        Some(5)
    } else if lower_eq(k, day_name(6)) {
        Some(6)
    } else {
        None
    }
}

fn day_of(k: &Vec<char>) -> (r: Option<usize>)
    ensures
        match r {
            Some(d) => day_index(k@) == Some(d as int) && d < 7,
            None => day_index(k@) is None,
        },
{
    if eq_lower(k, &['m', 'o', 'n']) {
        Some(0)
    } else if eq_lower(k, &['t', 'u', 'e']) {
        Some(1)
    } else if eq_lower(k, &['w', 'e', 'd']) {
        Some(2)
    } else if eq_lower(k, &['t', 'h', 'u']) {
        Some(3)
    } else if eq_lower(k, &['f', 'r', 'i']) {
        Some(4)
    } else if eq_lower(k, &['s', 'a', 't']) {
        Some(5)
    } else if eq_lower(k, &['s', 'u', 'n']) {
        Some(6)
    } else {
        None
    }
}

/// The key of a `key] value` line: the text before the first `]`, trimmed.
pub open spec fn line_key(line: Seq<char>) -> Seq<char> {
    trim(split_on(line, ']')[0])
}

/// The value of a `key] value` line: the text between the first `]` and the
/// next one (or the end), trimmed.
pub open spec fn line_value(line: Seq<char>) -> Seq<char> {
    trim(split_on(line, ']')[1])
}

/// `t` with `x` appended to the field whose name is exactly `key`; no field
/// changes for any other key.
pub open spec fn add_to_field(t: TweetView, key: Seq<char>, x: Seq<char>) -> TweetView {
    if key == kw_tweet() {
        TweetView { text: t.text + x, ..t }
    } else if key == kw_image() {
        TweetView { image: t.image + x, ..t }
    } else if key == kw_state() {
        TweetView { state: t.state + x, ..t }
    } else {
        t
    }
}

/// One line of a tweet block: a `key] value` line adds its value to the
/// field `key` and makes `key` the current key; any other line is added
/// whole to the field of the current key.
pub open spec fn tweet_step(acc: (Seq<char>, TweetView), line: Seq<char>) -> (Seq<char>, TweetView) {
    if line.contains(']') {
        (line_key(line), add_to_field(acc.1, line_key(line), line_value(line)))
    } else {
        (acc.0, add_to_field(acc.1, acc.0, line))
    }
}

pub open spec fn tweet_fold(lines: Seq<Seq<char>>) -> (Seq<char>, TweetView)
    decreases lines.len(),
{
    if lines.len() == 0 {
        (kw_tweet(), empty_tweet())
    } else {
        tweet_step(tweet_fold(lines.drop_last()), lines.last())
    }
}

/// The tweet that a block of lines describes.
pub open spec fn block_tweet(block: Seq<char>) -> TweetView {
    tweet_fold(split_on(block, '\n')).1
}

/// One line of the river text, read within its block: a day line sets that
/// day to its value with white space collapsed; a `tweet]` line queues the
/// tweet that the whole block describes; other lines change nothing.
pub open spec fn apply_line(r: RiverView, block: Seq<char>, line: Seq<char>) -> RiverView {
    if !line.contains(']') {
        r
    } else {
        match day_index(line_key(line)) {
            Some(d) => RiverView { days: r.days.update(d, collapse_ws(line_value(line))), ..r },
            None => if lower_eq(line_key(line), kw_tweet()) {
                RiverView { tweets: r.tweets.push(block_tweet(block)), ..r }
            } else {
                r
            },
        }
    }
}

pub open spec fn apply_lines(r: RiverView, block: Seq<char>, lines: Seq<Seq<char>>) -> RiverView
    decreases lines.len(),
{
    if lines.len() == 0 {
        r
    } else {
        apply_line(apply_lines(r, block, lines.drop_last()), block, lines.last())
    }
}

/// A `tweet]` line (the key in any case).
pub open spec fn tweet_line(line: Seq<char>) -> bool {
    line.contains(']') && lower_eq(line_key(line), kw_tweet())
}

/// An `image]` or `state]` line (the key in any case).
pub open spec fn field_line(line: Seq<char>) -> bool {
    line.contains(']') && (lower_eq(line_key(line), kw_image()) || lower_eq(
        line_key(line),
        kw_state(),
    ))
}

/// All fields of a tweet are optional: a block with an `image]` or `state]`
/// line but no `tweet]` line describes one tweet all the same.
pub open spec fn fields_only(lines: Seq<Seq<char>>) -> bool {
    &&& exists|i: int| 0 <= i < lines.len() && field_line(#[trigger] lines[i])
    &&& !exists|i: int| 0 <= i < lines.len() && tweet_line(#[trigger] lines[i])
}

/// The lines of one block, in order; then, for a block of tweet fields
/// without a `tweet]` line, the tweet that the block describes.
pub open spec fn apply_block(r: RiverView, block: Seq<char>) -> RiverView {
    let lines = split_on(block, '\n');
    let r1 = apply_lines(r, block, lines);
    if fields_only(lines) {
        RiverView { tweets: r1.tweets.push(block_tweet(block)), ..r1 }
    } else {
        r1
    }
}

pub open spec fn apply_blocks(r: RiverView, blocks: Seq<Seq<char>>) -> RiverView
    decreases blocks.len(),
{
    if blocks.len() == 0 {
        r
    } else {
        apply_block(apply_blocks(r, blocks.drop_last()), blocks.last())
    }
}

/// The river `r` after reading `content`: its blocks (separated by blank
/// lines) in order, and the lines of each block in order.
pub open spec fn parse_text(r: RiverView, content: Seq<char>) -> RiverView {
    apply_blocks(r, split_blocks(content))
}

fn tweet_of_block(block: &Vec<char>) -> (t: Tweet)
    ensures
        t@ == block_tweet(block@),
{
    let lines = split_chars(block, '\n');
    let mut key: Vec<char> = vec!['t', 'w', 'e', 'e', 't'];
    let mut text: Vec<char> = Vec::new();
    let mut image: Vec<char> = Vec::new();
    let mut state: Vec<char> = Vec::new();
    let n = lines.len();
    assert(views(lines@).take(0) =~= Seq::<Seq<char>>::empty());
    assert(key@ =~= kw_tweet());
    assert(text@ =~= Seq::<char>::empty());
    for i in 0..n
        invariant
            n == lines@.len(),
            views(lines@) == split_on(block@, '\n'),
            tweet_fold(views(lines@).take(i as int)) == (
                key@,
                TweetView { text: text@, image: image@, state: state@ },
            ),
    {
        let line = &lines[i];
        let ghost pre = views(lines@).take(i as int);
        assert(views(lines@).take(i + 1).drop_last() =~= pre);
        assert(views(lines@).take(i + 1).last() == line@);
        let (k, x) = if has_char(line, ']') {
            proof {
                crate::text::lemma_split_on_contains(line@, ']');
            }
            let parts = split_chars(line, ']');
            let k = trim_chars(&parts[0]);
            let v = trim_chars(&parts[1]);
            (k, v)
        } else {
            let k = key.clone();
            let mut x: Vec<char> = Vec::new();
            crate::text::append_chars(&mut x, line);
            (k, x)
        };
        if same_chars(&k, &['t', 'w', 'e', 'e', 't']) {
            append_chars(&mut text, &x);
        } else if same_chars(&k, &['i', 'm', 'a', 'g', 'e']) {
            append_chars(&mut image, &x);
        } else if same_chars(&k, &['s', 't', 'a', 't', 'e']) {
            append_chars(&mut state, &x);
        }
        key = k;
    }
    assert(views(lines@).take(n as int) =~= views(lines@));
    Tweet { text: string_of(&text), image: string_of(&image), state: string_of(&state) }
}

/// Some queued tweet has an image equal to `image` once both are trimmed.
pub open spec fn has_image(tweets: Seq<TweetView>, image: Seq<char>) -> bool {
    exists|i: int| 0 <= i < tweets.len() && trim(#[trigger] tweets[i].image) == trim(image)
}

/// The river `r` after queuing `image`: unchanged when a queued tweet has
/// that image (both trimmed), else with a new tweet that has only the image.
pub open spec fn appended(r: RiverView, image: Seq<char>) -> RiverView {
    if has_image(r.tweets, image) {
        r
    } else {
        RiverView { tweets: r.tweets.push(TweetView { image, ..empty_tweet() }), ..r }
    }
}

/// After queuing an image, a tweet with that image is queued, and queuing it
/// again changes nothing.
pub proof fn law_append_new_idempotent(r: RiverView, image: Seq<char>)
    ensures
        has_image(appended(r, image).tweets, image),
        appended(appended(r, image), image) == appended(r, image),
{
    if !has_image(r.tweets, image) {
        let t = appended(r, image).tweets;
        assert(t[t.len() - 1].image == image);
        assert(has_image(t, image));
    }
}

/// Queuing an image that some queued tweet already has (both trimmed)
/// changes nothing, wherever that tweet stands; queuing one that none has
/// adds, at the end, a tweet with just that image, and keeps the rest.
pub proof fn law_append_new_no_duplicate(r: RiverView, image: Seq<char>, i: int)
    ensures
        0 <= i < r.tweets.len() && trim(r.tweets[i].image) == trim(image) ==> appended(r, image)
            == r,
        (forall|j: int| 0 <= j < r.tweets.len() ==> trim(#[trigger] r.tweets[j].image) != trim(image))
            ==> {
            &&& appended(r, image).days == r.days
            &&& appended(r, image).tweets.len() == r.tweets.len() + 1
            &&& appended(r, image).tweets.take(r.tweets.len() as int) == r.tweets
            &&& appended(r, image).tweets.last() == TweetView {
                text: Seq::empty(),
                image,
                state: Seq::empty(),
            }
        },
{
    if 0 <= i < r.tweets.len() && trim(r.tweets[i].image) == trim(image) {
        assert(has_image(r.tweets, image));
    }
    if forall|j: int| 0 <= j < r.tweets.len() ==> trim(#[trigger] r.tweets[j].image) != trim(image) {
        assert(!has_image(r.tweets, image));
        assert(appended(r, image).tweets.take(r.tweets.len() as int) =~= r.tweets);
    }
}

proof fn lemma_tweets_view_push(q: Seq<Tweet>, t: Tweet)
    ensures
        tweets_view(q.push(t)) == tweets_view(q).push(t@),
{
    assert(tweets_view(q.push(t)) =~= tweets_view(q).push(t@));
}

impl River {
    /// The entry of the day that `day` names (a short day name, in any
    /// case), or an empty string for any other `day`.
    pub fn get_day(&self, day: &str) -> (r: String)
        ensures
            r@ == match day_index(day@) {
                Some(d) => self@.days[d],
                None => Seq::empty(),
            },
    {
        let k = chars_of(day);
        match day_of(&k) {
            Some(d) => self.days.get(d),
            None => String::new(),
        }
    }

    /// Reads a river text into this river: day lines replace day entries,
    /// and each `tweet]` line queues the tweet of its block.
    pub fn parse_load(&mut self, content: String)
        ensures
            final(self)@ == parse_text(old(self)@, content@),
    {
        let ghost init = self@;
        let chars = chars_of(content.as_str());
        let blocks = split_blocks_chars(&chars);
        let nb = blocks.len();
        assert(views(blocks@).take(0) =~= Seq::<Seq<char>>::empty());
        for b in 0..nb
            invariant
                nb == blocks@.len(),
                views(blocks@) == split_blocks(content@),
                init == old(self)@,
                self@ == apply_blocks(init, views(blocks@).take(b as int)),
        {
            let block = &blocks[b];
            assert(views(blocks@).take(b + 1).drop_last() =~= views(blocks@).take(b as int));
            assert(views(blocks@).take(b + 1).last() == block@);
            let lines = split_chars(block, '\n');
            let nl = lines.len();
            let ghost start = self@;
            assert(views(lines@).take(0) =~= Seq::<Seq<char>>::empty());
            let mut saw_tweet = false;
            let mut saw_field = false;
            for l in 0..nl
                invariant
                    nl == lines@.len(),
                    views(lines@) == split_on(block@, '\n'),
                    self@ == apply_lines(start, block@, views(lines@).take(l as int)),
                    saw_tweet == exists|j: int| 0 <= j < l && tweet_line(#[trigger] views(lines@)[j]),
                    saw_field == exists|j: int| 0 <= j < l && field_line(#[trigger] views(lines@)[j]),
            {
                let ghost was_tweet = saw_tweet;
                let ghost was_field = saw_field;
                let line = &lines[l];
                assert(views(lines@).take(l + 1).drop_last() =~= views(lines@).take(l as int));
                assert(views(lines@).take(l + 1).last() == line@);
                if has_char(line, ']') {
                    proof {
                        crate::text::lemma_split_on_contains(line@, ']');
                    }
                    let parts = split_chars(line, ']');
                    let k = trim_chars(&parts[0]);
                    let v = trim_chars(&parts[1]);
                    let val = collapse_chars(&v);
                    if eq_lower(&k, &['t', 'w', 'e', 'e', 't']) {
                        saw_tweet = true;
                    }
                    if eq_lower(&k, &['i', 'm', 'a', 'g', 'e']) || eq_lower(&k, &['s', 't', 'a', 't', 'e']) {
                        saw_field = true;
                    }
                    match day_of(&k) {
                        Some(d) => {
                            proof {
                                self.days.law_seven_days();
                            }
                            self.days.set(d, string_of(&val));
                        },
                        None => {
                            if eq_lower(&k, &['t', 'w', 'e', 'e', 't']) {
                                let t = tweet_of_block(block);
                                proof {
                                    lemma_tweets_view_push(self.tweets.queue@, t);
                                }
                                self.tweets.queue.push(t);
                            }
                        },
                    }
                }
                assert(saw_tweet == exists|j: int| 0 <= j < l + 1 && tweet_line(#[trigger] views(lines@)[j])) by {
                    if was_tweet {
                        let j = choose|j: int| 0 <= j < l && tweet_line(#[trigger] views(lines@)[j]);
                        assert(0 <= j < l + 1);
                    }
                    if saw_tweet && !was_tweet {
                        assert(tweet_line(views(lines@)[l as int]));
                    }
                }
                assert(saw_field == exists|j: int| 0 <= j < l + 1 && field_line(#[trigger] views(lines@)[j])) by {
                    if was_field {
                        let j = choose|j: int| 0 <= j < l && field_line(#[trigger] views(lines@)[j]);
                        assert(0 <= j < l + 1);
                    }
                    if saw_field && !was_field {
                        assert(field_line(views(lines@)[l as int]));
                    }
                }
            }
            assert(views(lines@).take(nl as int) =~= views(lines@));
            if saw_field && !saw_tweet {
                let t = tweet_of_block(block);
                proof {
                    lemma_tweets_view_push(self.tweets.queue@, t);
                }
                self.tweets.queue.push(t);
            }
        }
        assert(views(blocks@).take(nb as int) =~= views(blocks@));
    }

    /// Queues a new tweet with `image` (and no text or state) unless a
    /// queued tweet already has that image, both trimmed.
    pub fn append_new(&mut self, image: String)
        ensures
            final(self)@ == appended(old(self)@, image@),
    {
        let wanted = trim_chars(&chars_of(image.as_str()));
        let n = self.tweets.queue.len();
        for i in 0..n
            invariant
                n == self.tweets.queue@.len(),
                wanted@ == trim(image@),
                forall|j: int|
                    0 <= j < i ==> trim(#[trigger] tweets_view(self.tweets.queue@)[j].image) != trim(
                        image@,
                    ),
        {
            let have = trim_chars(&chars_of(self.tweets.queue[i].image.as_str()));
            if same_chars(&have, wanted.as_slice()) {
                assert(trim(tweets_view(self.tweets.queue@)[i as int].image) == trim(image@));
                return;
            }
        }
        let mut tweet = Tweet::new();
        tweet.image = image;
        proof {
            lemma_tweets_view_push(self.tweets.queue@, tweet);
        }
        self.tweets.queue.push(tweet);
        assert(self@.tweets =~= old(self)@.tweets.push(tweet@));
    }
}

/// `s` with each run of white space made a single space, and none at either
/// end.
pub fn remove_whitespace(s: &str) -> (r: String)
    ensures
        r@ == collapse_ws(s@),
{
    string_of(&collapse_chars(&chars_of(s)))
}

/// The state that the text of a river shows for a tweet whose state is
/// `state`: `Sent` or `Error` where `state` names one of them in any case,
/// and `Pending` otherwise (an empty, pending or unknown state).
pub open spec fn state_label(state: Seq<char>) -> Seq<char> {
    if lower_eq(state, seq!['s', 'e', 'n', 't']) {
        seq!['S', 'e', 'n', 't']
    } else if lower_eq(state, seq!['e', 'r', 'r', 'o', 'r']) {
        seq!['E', 'r', 'r', 'o', 'r']
    } else {
        seq!['P', 'e', 'n', 'd', 'i', 'n', 'g']
    }
}

/// The label written for a state depends only on the state with its ASCII
/// letters made small: `Sent` for `sent`, `Error` for `error`, and
/// `Pending` for anything else.
pub proof fn law_state_label_by_lowercase(s: Seq<char>, u: Seq<char>)
    ensures
        lowered(s) == seq!['s', 'e', 'n', 't'] ==> state_label(s) == seq!['S', 'e', 'n', 't'],
        lowered(s) == seq!['e', 'r', 'r', 'o', 'r'] ==> state_label(s) == seq![
            'E',
            'r',
            'r',
            'o',
            'r',
        ],
        lowered(s) != seq!['s', 'e', 'n', 't'] && lowered(s) != seq!['e', 'r', 'r', 'o', 'r']
            ==> state_label(s) == seq!['P', 'e', 'n', 'd', 'i', 'n', 'g'],
        lowered(s) == lowered(u) ==> state_label(s) == state_label(u),
{
    lemma_lower_eq_lowered(s, seq!['s', 'e', 'n', 't']);
    lemma_lower_eq_lowered(s, seq!['e', 'r', 'r', 'o', 'r']);
    lemma_lower_eq_lowered(u, seq!['s', 'e', 'n', 't']);
    lemma_lower_eq_lowered(u, seq!['e', 'r', 'r', 'o', 'r']);
}

/// The text shown for a tweet: its own text, or, when asked for and the
/// text is empty, the file name of its image with `-`, `_` and `.` made
/// spaces.
pub open spec fn shown_text(t: TweetView, with_name_as_text: bool) -> Seq<char> {
    if with_name_as_text && t.text.len() == 0 {
        spaced_name(file_name(t.image).unwrap())
    } else {
        t.text
    }
}

/// Every tweet whose text would be taken from its image's file name has an
/// image path that has a file name.
pub open spec fn names_available(tweets: Seq<TweetView>, with_name_as_text: bool) -> bool {
    with_name_as_text ==> forall|i: int|
        0 <= i < tweets.len() && (#[trigger] tweets[i]).text.len() == 0 ==> file_name(
            tweets[i].image,
        ) is Some
}

pub open spec fn nl() -> Seq<char> {
    seq!['\n']
}

pub open spec fn nn() -> Seq<char> {
    seq!['\n', '\n']
}

/// The opening of a river text: a `schedule]` line and a note on the day
/// lines.
pub open spec fn header_text() -> Seq<char> {
    "schedule]"@ + nn() + "# Times using 24-hour clock and daily tags, as much as you like."@ + nl()
        + "# sun] 10 13 16 #sundaytag"@ + nn()
}

/// The line of day `d`: its short name, `] `, its entry and a newline.
pub open spec fn day_line(days: Seq<Seq<char>>, d: int) -> Seq<char> {
    day_name(d) + seq![']', ' '] + days[d] + seq!['\n']
}

pub open spec fn day_lines(days: Seq<Seq<char>>, n: int) -> Seq<char>
    decreases n,
{
    if n <= 0 {
        Seq::empty()
    } else {
        day_lines(days, n - 1) + day_line(days, n - 1)
    }
}

/// The opening of the queue: a `tweets]` line and notes on the entries.
pub open spec fn queue_header() -> Seq<char> {
    "tweets]"@ + nn() + "# tweet] Message to tweet! #cool"@ + nl() + "# image] Image-to.tweet"@ + nl()
        + "# state] Pending | Sent | Error <- Handled by the application."@ + nn()
        + "# All fields are optional."@ + nl()
        + "# If you want you can send a single tweet] or a single image]."@ + nn()
}

/// The entry of one tweet: its `tweet]`, `image]` and `state]` lines and a
/// blank line.
pub open spec fn entry_text(t: TweetView, with_name_as_text: bool) -> Seq<char> {
    "tweet] "@ + shown_text(t, with_name_as_text) + nl() + "image] "@ + t.image + nl() + "state] "@
        + state_label(t.state) + nl() + nl()
}

pub open spec fn entries_text(tweets: Seq<TweetView>, with_name_as_text: bool) -> Seq<char>
    decreases tweets.len(),
{
    if tweets.len() == 0 {
        Seq::empty()
    } else {
        entries_text(tweets.drop_last(), with_name_as_text) + entry_text(
            tweets.last(),
            with_name_as_text,
        )
    }
}

/// The text of a river: a header, the seven day lines, the queue header and
/// the entry of each tweet in queue order.
pub open spec fn river_text(r: RiverView, with_name_as_text: bool) -> Seq<char> {
    header_text() + day_lines(r.days, 7) + nn() + queue_header() + entries_text(
        r.tweets,
        with_name_as_text,
    )
}

fn day_str(d: usize) -> (r: &'static str)
    requires
        d < 7,
    ensures
        r@ == day_name(d as int),
{
    proof {
        reveal_strlit("mon");
        reveal_strlit("tue");
        reveal_strlit("wed");
        reveal_strlit("thu");
        reveal_strlit("fri");
        reveal_strlit("sat");
        reveal_strlit("sun");
    }
    match d {
        0 => "mon",
        1 => "tue",
        2 => "wed",
        3 => "thu",
        4 => "fri",
        5 => "sat",
        _ => "sun",
    }
}

fn state_str(state: &String) -> (r: &'static str)
    ensures
        r@ == state_label(state@),
{
    proof {
        reveal_strlit("Pending");
        reveal_strlit("Sent");
        reveal_strlit("Error");
    }
    let s = chars_of(state.as_str());
    if eq_lower(&s, &['s', 'e', 'n', 't']) {
        "Sent"
    } else if eq_lower(&s, &['e', 'r', 'r', 'o', 'r']) {
        "Error"
    } else {
        "Pending"
    }
}

fn entry_of(file: &Tweet, with_name_as_text: bool) -> (r: String)
    requires
        with_name_as_text && file@.text.len() == 0 ==> file_name(file@.image) is Some,
    ensures
        r@ == entry_text(file@, with_name_as_text),
{
    let text = if with_name_as_text && file.text.as_str().is_empty() {
        let image = chars_of(file.image.as_str());
        let name = match crate::text::file_name_chars(&image) {
            Some(name) => name,
            None => {
                assert(false);
                Vec::new()
            },
        };
        string_of(&crate::text::spaced_chars(&name))
    } else {
        file.text.clone()
    };
    assert(text@ == shown_text(file@, with_name_as_text));
    let state = state_str(&file.state);
    proof {
        reveal_strlit("\n");
    }
    let mut content = String::new();
    content.append("tweet] ");
    content.append(text.as_str());
    content.append("\n");
    content.append("image] ");
    content.append(file.image.as_str());
    content.append("\n");
    content.append("state] ");
    content.append(state);
    content.append("\n");
    content.append("\n");
    assert(content@ =~= entry_text(file@, with_name_as_text));
    content
}

impl River {
    /// The text of this river, which `parse_load` reads back.  With
    /// `with_name_as_text`, a tweet without text shows the file name of its
    /// image, with `-`, `_` and `.` made spaces.
    pub fn to_text(&self, with_name_as_text: bool) -> (r: String)
        requires
            names_available(self@.tweets, with_name_as_text),
        ensures
            r@ == river_text(self@, with_name_as_text),
    {
        let mut content = String::new();
        proof {
            reveal_strlit("] ");
            reveal_strlit("\n");
            reveal_strlit("\n\n");
            self.days.law_seven_days();
        }
        content.append("schedule]");
        content.append("\n\n");
        content.append("# Times using 24-hour clock and daily tags, as much as you like.");
        content.append("\n");
        content.append("# sun] 10 13 16 #sundaytag");
        content.append("\n\n");
        let ghost head = content@;
        assert(head =~= header_text());
        for d in 0..7
            invariant
                content@ == head + day_lines(self@.days, d as int),
                "] "@ == seq![']', ' '],
                "\n"@ == seq!['\n'],
        {
            content.append(day_str(d));
            content.append("] ");
            let entry = self.days.get(d);
            content.append(entry.as_str());
            content.append("\n");
            assert(content@ =~= head + day_lines(self@.days, d + 1));
        }
        content.append("\n\n");
        content.append("tweets]");
        content.append("\n\n");
        content.append("# tweet] Message to tweet! #cool");
        content.append("\n");
        content.append("# image] Image-to.tweet");
        content.append("\n");
        content.append("# state] Pending | Sent | Error <- Handled by the application.");
        content.append("\n\n");
        content.append("# All fields are optional.");
        content.append("\n");
        content.append("# If you want you can send a single tweet] or a single image].");
        content.append("\n\n");
        let ghost top = content@;
        assert(top =~= header_text() + day_lines(self@.days, 7) + nn() + queue_header());
        let n = self.tweets.queue.len();
        assert(tweets_view(self.tweets.queue@).take(0) =~= Seq::<TweetView>::empty());
        for i in 0..n
            invariant
                n == self.tweets.queue@.len(),
                names_available(self@.tweets, with_name_as_text),
                content@ == top + entries_text(
                    tweets_view(self.tweets.queue@).take(i as int),
                    with_name_as_text,
                ),
        {
            let file = &self.tweets.queue[i];
            assert(tweets_view(self.tweets.queue@)[i as int] == file@);
            let entry = entry_of(file, with_name_as_text);
            content.append(entry.as_str());
            assert(tweets_view(self.tweets.queue@).take(i + 1).drop_last() =~= tweets_view(
                self.tweets.queue@,
            ).take(i as int));
            assert(content@ =~= top + entries_text(
                tweets_view(self.tweets.queue@).take(i + 1),
                with_name_as_text,
            ));
        }
        assert(tweets_view(self.tweets.queue@).take(n as int) =~= tweets_view(self.tweets.queue@));
        content
    }
}

} // verus!
