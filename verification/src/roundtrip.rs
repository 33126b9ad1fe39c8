use vstd::prelude::*;

use crate::river::{
    apply_block, apply_blocks, apply_line, apply_lines, day_index, day_lines, day_name, kw_tweet, line_key,
    line_value, nl, nn, parse_text, field_line, fields_only, tweet_line, RiverView, TweetView, shown_text, state_label, entry_text,
    entries_text, river_text, tweet_fold, block_tweet, empty_tweet, kw_image, kw_state,
};
use crate::text::{
    ascii_lower, collapse_ws, is_ws, law_collapse_ws_idempotent, law_collapse_ws_trimmed, lemma_blocks_join, lemma_split_from_concat, lemma_split_from_len,
    lemma_add_line, lemma_line_alone, lemma_split_on_contains, lemma_split_on_join,
    lemma_split_on_single, lower_eq, no_blank_line,
    open_end, split_blocks, split_from, split_on, trim, trim_end, trim_start,
};

verus! {

proof fn lemma_apply_blocks_front(r: RiverView, a: Seq<char>, xs: Seq<Seq<char>>)
    ensures
        apply_blocks(r, seq![a] + xs) == apply_blocks(apply_block(r, a), xs),
    decreases xs.len(),
{
    if xs.len() == 0 {
        assert(seq![a] + xs =~= seq![a]);
        assert(seq![a].drop_last() =~= Seq::<Seq<char>>::empty());
        assert(apply_blocks(r, Seq::empty()) == r);
    } else {
        assert((seq![a] + xs).drop_last() =~= seq![a] + xs.drop_last());
        assert((seq![a] + xs).last() == xs.last());
        lemma_apply_blocks_front(r, a, xs.drop_last());
    }
}

/// Reading a block followed by a blank line and more text.
proof fn lemma_parse_peel(r: RiverView, a: Seq<char>, b: Seq<char>)
    requires
        no_blank_line(a),
        open_end(a),
    ensures
        parse_text(r, a + nn() + b) == parse_text(apply_block(r, a), b),
{
    lemma_blocks_join(a, b);
    lemma_apply_blocks_front(r, a, split_blocks(b));
}

proof fn lemma_parse_empty(r: RiverView)
    ensures
        parse_text(r, Seq::empty()) == r,
{
    let e = Seq::<char>::empty();
    assert(split_blocks(e) == seq![e]);
    assert(split_on(e, '\n') == seq![e]);
    assert(seq![e].drop_last() =~= Seq::<Seq<char>>::empty());
    assert(!e.contains(']'));
    assert(apply_lines(r, e, Seq::empty()) == r);
    assert(apply_block(r, e) == r);
    assert(apply_blocks(r, Seq::empty()) == r);
}

proof fn lemma_split_from_first(p: Seq<Seq<char>>, t: Seq<char>, sep: char)
    requires
        p.len() >= 1,
    ensures
        split_from(p, t, sep).len() >= 1,
        p[0].len() <= split_from(p, t, sep)[0].len(),
        forall|i: int| 0 <= i < p[0].len() ==> split_from(p, t, sep)[0][i] == p[0][i],
    decreases t.len(),
{
    if t.len() > 0 {
        lemma_split_from_first(p, t.drop_last(), sep);
        lemma_split_from_len(p, t.drop_last(), sep);
    }
}

/// The first piece of a text that does not start with the separator starts
/// with the text's first character.
proof fn lemma_first_piece(s: Seq<char>, sep: char)
    requires
        s.len() > 0,
        s[0] != sep,
    ensures
        split_on(s, sep)[0].len() > 0,
        split_on(s, sep)[0][0] == s[0],
{
    let e: Seq<Seq<char>> = seq![Seq::empty()];
    let h = s.take(1);
    assert(s =~= h + s.skip(1));
    lemma_split_from_concat(e, h, s.skip(1), sep);
    assert(h.drop_last() =~= Seq::<char>::empty());
    assert(split_from(e, Seq::<char>::empty(), sep) == e);
    assert(split_from(e, h, sep) =~= seq![seq![s[0]]]);
    let q: Seq<Seq<char>> = seq![seq![s[0]]];
    lemma_split_from_first(q, s.skip(1), sep);
    assert(q[0].len() == 1);
    assert(split_from(q, s.skip(1), sep)[0][0] == q[0][0]);
    assert(split_on(s, sep) == split_from(q, s.skip(1), sep));
}

proof fn lemma_trim_end_keeps_first(x: Seq<char>)
    requires
        x.len() > 0,
        !is_ws(x[0]),
    ensures
        trim_end(x).len() > 0,
        trim_end(x)[0] == x[0],
    decreases x.len(),
{
    if x.len() > 0 && is_ws(x.last()) {
        assert(x.len() > 1);
        lemma_trim_end_keeps_first(x.drop_last());
    }
}

/// A line that names neither a day nor `tweet` before a `]`, and so changes
/// nothing.
spec fn inert_line(line: Seq<char>) -> bool {
    !line.contains(']') || (day_index(line_key(line)) is None && !lower_eq(
        line_key(line),
        kw_tweet(),
    ) && !lower_eq(line_key(line), kw_image()) && !lower_eq(line_key(line), kw_state()))
}

/// A block whose lines are all inert changes nothing.
proof fn lemma_inert_block(r: RiverView, block: Seq<char>, ls: Seq<Seq<char>>)
    requires
        split_on(block, '\n') == ls,
        forall|i: int| 0 <= i < ls.len() ==> inert_line(#[trigger] ls[i]),
    ensures
        apply_block(r, block) == r,
{
    lemma_apply_lines_inert(r, block, ls);
    assert(!fields_only(ls)) by {
        if exists|i: int| 0 <= i < ls.len() && field_line(#[trigger] ls[i]) {
            let i = choose|i: int| 0 <= i < ls.len() && field_line(#[trigger] ls[i]);
            assert(inert_line(ls[i]));
        }
    }
}

proof fn lemma_apply_lines_inert(r: RiverView, block: Seq<char>, ls: Seq<Seq<char>>)
    requires
        forall|i: int| 0 <= i < ls.len() ==> inert_line(#[trigger] ls[i]),
    ensures
        apply_lines(r, block, ls) == r,
    decreases ls.len(),
{
    if ls.len() > 0 {
        assert(inert_line(ls[ls.len() - 1]));
        lemma_apply_lines_inert(r, block, ls.drop_last());
    }
}

/// A line that starts with `#` changes nothing.
proof fn lemma_note_line(line: Seq<char>)
    requires
        line.len() > 0,
        line[0] == '#',
    ensures
        inert_line(line),
{
    if line.contains(']') {
        lemma_split_on_contains(line, ']');
        lemma_first_piece(line, ']');
        let p = split_on(line, ']')[0];
        assert(trim_start(p) == p);
        lemma_trim_end_keeps_first(p);
        let k = line_key(line);
        assert(k[0] == '#');
        assert(ascii_lower(k[0]) == '#');
        assert(!lower_eq(k, day_name(0)));
        assert(!lower_eq(k, day_name(1)));
        assert(!lower_eq(k, day_name(2)));
        assert(!lower_eq(k, day_name(3)));
        assert(!lower_eq(k, day_name(4)));
        assert(!lower_eq(k, day_name(5)));
        assert(!lower_eq(k, day_name(6)));
        assert(!lower_eq(k, kw_tweet()));
        assert(!lower_eq(k, kw_image()));
        assert(!lower_eq(k, kw_state()));
    }
}

/// A `key] value` line, where neither part holds `]`.
proof fn lemma_key_value(k: Seq<char>, v: Seq<char>)
    requires
        !k.contains(']'),
        !v.contains(']'),
    ensures
        (k + seq![']'] + v).contains(']'),
        line_key(k + seq![']'] + v) == trim(k),
        line_value(k + seq![']'] + v) == trim(v),
{
    let line = k + seq![']'] + v;
    assert(line[k.len() as int] == ']');
    lemma_split_on_join(k, v, ']');
    lemma_split_on_single(k, ']');
    lemma_split_on_single(v, ']');
    assert(split_on(line, ']') =~= seq![k, v]);
}

proof fn lemma_two_lines(a: Seq<char>, b: Seq<char>)
    requires
        !a.contains('\n'),
        !b.contains('\n'),
        b.len() > 0,
    ensures
        split_on(a + nl() + b, '\n') == seq![a, b],
        no_blank_line(a + nl() + b),
        open_end(a + nl() + b),
{
    lemma_split_on_join(a, b, '\n');
    lemma_split_on_single(a, '\n');
    lemma_split_on_single(b, '\n');
    assert(seq![a] + seq![b] =~= seq![a, b]);
    lemma_line_alone(a);
    lemma_add_line(a, b);
}

proof fn lemma_three_lines(a: Seq<char>, b: Seq<char>, c: Seq<char>)
    requires
        !a.contains('\n'),
        !b.contains('\n'),
        !c.contains('\n'),
        b.len() > 0,
        c.len() > 0,
    ensures
        split_on(a + nl() + b + nl() + c, '\n') == seq![a, b, c],
        no_blank_line(a + nl() + b + nl() + c),
        open_end(a + nl() + b + nl() + c),
{
    lemma_two_lines(a, b);
    lemma_split_on_join(a + nl() + b, c, '\n');
    lemma_split_on_single(c, '\n');
    assert(seq![a, b] + seq![c] =~= seq![a, b, c]);
    lemma_add_line(a + nl() + b, c);
}

/// The opening of a river text changes nothing.
proof fn lemma_read_header(r: RiverView, rest: Seq<char>)
    ensures
        parse_text(
            r,
            "schedule]"@ + nn() + ("# Times using 24-hour clock and daily tags, as much as you like."@
                + nl() + "# sun] 10 13 16 #sundaytag"@ + nn() + rest),
        ) == parse_text(r, rest),
{
    let b1 = "schedule]"@;
    let c1 = "# Times using 24-hour clock and daily tags, as much as you like."@;
    let c2 = "# sun] 10 13 16 #sundaytag"@;
    reveal_strlit("schedule]");
    reveal_strlit("# Times using 24-hour clock and daily tags, as much as you like.");
    reveal_strlit("# sun] 10 13 16 #sundaytag");
    // the `schedule]` line
    let k = seq!['s', 'c', 'h', 'e', 'd', 'u', 'l', 'e'];
    assert(b1 =~= k + seq![']'] + Seq::<char>::empty());
    lemma_key_value(k, Seq::empty());
    assert(trim_start(k) == k);
    assert(trim_end(k) == k);
    assert(inert_line(b1));
    assert(!b1.contains('\n'));
    lemma_split_on_single(b1, '\n');
    lemma_line_alone(b1);
    lemma_inert_block(r, b1, seq![b1]);
    lemma_parse_peel(r, b1, c1 + nl() + c2 + nn() + rest);
    // the note lines
    lemma_note_line(c1);
    lemma_note_line(c2);
    lemma_two_lines(c1, c2);
    lemma_inert_block(r, c1 + nl() + c2, seq![c1, c2]);
    lemma_parse_peel(r, c1 + nl() + c2, rest);
    assert(c1 + nl() + c2 + nn() + rest =~= (c1 + nl() + c2) + nn() + rest);
    assert(b1 + nn() + (c1 + nl() + c2 + nn() + rest) =~= b1 + nn() + (c1 + nl() + c2 + nn()
        + rest));
}

/// The block that opens the queue.
pub open spec fn queue_open_block() -> Seq<char> {
    nl() + "tweets]"@
}

pub open spec fn queue_note_block() -> Seq<char> {
    "# tweet] Message to tweet! #cool"@ + nl() + "# image] Image-to.tweet"@ + nl()
        + "# state] Pending | Sent | Error <- Handled by the application."@
}

pub open spec fn queue_hint_block() -> Seq<char> {
    "# All fields are optional."@ + nl() + "# If you want you can send a single tweet] or a single image]."@
}

/// The opening of the queue changes nothing.
proof fn lemma_read_queue_header(r: RiverView, rest: Seq<char>)
    ensures
        parse_text(
            r,
            queue_open_block() + nn() + (queue_note_block() + nn() + (queue_hint_block() + nn()
                + rest)),
        ) == parse_text(r, rest),
{
    let t = "tweets]"@;
    let c3 = "# tweet] Message to tweet! #cool"@;
    let c4 = "# image] Image-to.tweet"@;
    let c5 = "# state] Pending | Sent | Error <- Handled by the application."@;
    let c6 = "# All fields are optional."@;
    let c7 = "# If you want you can send a single tweet] or a single image]."@;
    reveal_strlit("tweets]");
    reveal_strlit("# tweet] Message to tweet! #cool");
    reveal_strlit("# image] Image-to.tweet");
    reveal_strlit("# state] Pending | Sent | Error <- Handled by the application.");
    reveal_strlit("# All fields are optional.");
    reveal_strlit("# If you want you can send a single tweet] or a single image].");
    let e = Seq::<char>::empty();
    // the `tweets]` block
    let k = seq!['t', 'w', 'e', 'e', 't', 's'];
    assert(t =~= k + seq![']'] + e);
    lemma_key_value(k, e);
    assert(trim_start(k) == k);
    assert(trim_end(k) == k);
    assert(inert_line(t));
    assert(!e.contains(']'));
    assert(inert_line(e));
    lemma_two_lines(e, t);
    assert(e + nl() + t =~= queue_open_block());
    let r1 = queue_note_block() + nn() + (queue_hint_block() + nn() + rest);
    lemma_inert_block(r, queue_open_block(), seq![e, t]);
    lemma_parse_peel(r, queue_open_block(), r1);
    // the notes
    lemma_note_line(c3);
    lemma_note_line(c4);
    lemma_note_line(c5);
    lemma_three_lines(c3, c4, c5);
    lemma_inert_block(r, queue_note_block(), seq![c3, c4, c5]);
    lemma_parse_peel(r, queue_note_block(), queue_hint_block() + nn() + rest);
    lemma_note_line(c6);
    lemma_note_line(c7);
    lemma_two_lines(c6, c7);
    lemma_inert_block(r, queue_hint_block(), seq![c6, c7]);
    lemma_parse_peel(r, queue_hint_block(), rest);
}

/// `v` holds neither `]` nor a line break, so it stays within one line and
/// one value.
pub open spec fn fits_line(v: Seq<char>) -> bool {
    !v.contains(']') && !v.contains('\n')
}

/// Day `d`'s line, without its line break.
pub open spec fn day_body(days: Seq<Seq<char>>, d: int) -> Seq<char> {
    day_name(d) + seq![']', ' '] + days[d]
}

/// The day lines of days `0..n`, joined by line breaks.
pub open spec fn days_block(days: Seq<Seq<char>>, n: int) -> Seq<char>
    decreases n,
{
    if n <= 1 {
        day_body(days, 0)
    } else {
        days_block(days, n - 1) + nl() + day_body(days, n - 1)
    }
}

pub open spec fn day_bodies(days: Seq<Seq<char>>, n: int) -> Seq<Seq<char>> {
    Seq::new(n as nat, |d: int| day_body(days, d))
}

/// The days after reading the day lines of `days` for days `0..n` into
/// `old`.
pub open spec fn days_read(old: Seq<Seq<char>>, days: Seq<Seq<char>>, n: int) -> Seq<Seq<char>> {
    Seq::new(7, |d: int| if d < n { collapse_ws(trim(days[d])) } else { old[d] })
}

proof fn lemma_day_lines(days: Seq<Seq<char>>, n: int)
    requires
        n >= 1,
    ensures
        day_lines(days, n) == days_block(days, n) + nl(),
    decreases n,
{
    if n > 1 {
        lemma_day_lines(days, n - 1);
        assert(day_lines(days, n) =~= days_block(days, n) + nl());
    } else {
        assert(day_lines(days, 0) == Seq::<char>::empty());
        assert(day_lines(days, n) =~= days_block(days, n) + nl());
    }
}

proof fn lemma_day_name_facts(d: int)
    requires
        0 <= d < 7,
    ensures
        day_name(d).len() == 3,
        !day_name(d).contains(']'),
        !day_name(d).contains('\n'),
        trim(day_name(d)) == day_name(d),
        day_index(day_name(d)) == Some(d),
{
    let k = day_name(d);
    assert(trim_start(k) == k);
    assert(trim_end(k) == k);
    if d == 0 {
        assert(lower_eq(k, day_name(0)));
    } else if d == 1 {
        assert(!lower_eq(k, day_name(0)));
        assert(lower_eq(k, day_name(1)));
    } else if d == 2 {
        assert(!lower_eq(k, day_name(0)));
        assert(!lower_eq(k, day_name(1)));
        assert(lower_eq(k, day_name(2)));
    } else if d == 3 {
        assert(!lower_eq(k, day_name(0)));
        assert(!lower_eq(k, day_name(1)));
        assert(!lower_eq(k, day_name(2)));
        assert(lower_eq(k, day_name(3)));
    } else if d == 4 {
        assert(!lower_eq(k, day_name(0)));
        assert(!lower_eq(k, day_name(1)));
        assert(!lower_eq(k, day_name(2)));
        assert(!lower_eq(k, day_name(3)));
        assert(lower_eq(k, day_name(4)));
    } else if d == 5 {
        assert(!lower_eq(k, day_name(0)));
        assert(!lower_eq(k, day_name(1)));
        assert(!lower_eq(k, day_name(2)));
        assert(!lower_eq(k, day_name(3)));
        assert(!lower_eq(k, day_name(4)));
        assert(lower_eq(k, day_name(5)));
    } else {
        assert(!lower_eq(k, day_name(0)));
        assert(!lower_eq(k, day_name(1)));
        assert(!lower_eq(k, day_name(2)));
        assert(!lower_eq(k, day_name(3)));
        assert(!lower_eq(k, day_name(4)));
        assert(!lower_eq(k, day_name(5)));
        assert(lower_eq(k, day_name(6)));
    }
}

proof fn lemma_trim_space_front(v: Seq<char>)
    ensures
        trim(seq![' '] + v) == trim(v),
{
    assert((seq![' '] + v).skip(1) =~= v);
    assert(trim_start(seq![' '] + v) == trim_start(v));
}

proof fn lemma_day_body(days: Seq<Seq<char>>, d: int)
    requires
        0 <= d < 7,
        d < days.len(),
        fits_line(days[d]),
    ensures
        day_body(days, d).len() > 0,
        !day_body(days, d).contains('\n'),
        day_body(days, d).contains(']'),
        line_key(day_body(days, d)) == day_name(d),
        line_value(day_body(days, d)) == trim(days[d]),
{
    lemma_day_name_facts(d);
    let v = seq![' '] + days[d];
    assert(day_body(days, d) =~= day_name(d) + seq![']'] + v);
    assert(!v.contains(']')) by {
        if v.contains(']') {
            let i = choose|i: int| 0 <= i < v.len() && v[i] == ']';
            assert(days[d][i - 1] == ']');
        }
    }
    lemma_key_value(day_name(d), v);
    lemma_trim_space_front(days[d]);
    let b = day_body(days, d);
    assert(!b.contains('\n')) by {
        if b.contains('\n') {
            let i = choose|i: int| 0 <= i < b.len() && b[i] == '\n';
            if i < 3 {
                assert(day_name(d)[i] == '\n');
            } else if i >= 5 {
                assert(days[d][i - 5] == '\n');
            }
        }
    }
}

proof fn lemma_days_block_lines(days: Seq<Seq<char>>, n: int)
    requires
        1 <= n <= 7,
        days.len() == 7,
        forall|d: int| 0 <= d < 7 ==> fits_line(#[trigger] days[d]),
    ensures
        split_on(days_block(days, n), '\n') == day_bodies(days, n),
        no_blank_line(days_block(days, n)),
        open_end(days_block(days, n)),
    decreases n,
{
    lemma_day_body(days, n - 1);
    if n > 1 {
        lemma_days_block_lines(days, n - 1);
        lemma_split_on_join(days_block(days, n - 1), day_body(days, n - 1), '\n');
        lemma_split_on_single(day_body(days, n - 1), '\n');
        assert(day_bodies(days, n - 1) + seq![day_body(days, n - 1)] =~= day_bodies(days, n));
        lemma_add_line(days_block(days, n - 1), day_body(days, n - 1));
    } else {
        lemma_split_on_single(day_body(days, 0), '\n');
        assert(day_bodies(days, 1) =~= seq![day_body(days, 0)]);
        lemma_line_alone(day_body(days, 0));
    }
}

proof fn lemma_apply_day_lines(r: RiverView, block: Seq<char>, days: Seq<Seq<char>>, n: int)
    requires
        0 <= n <= 7,
        r.days.len() == 7,
        days.len() == 7,
        forall|d: int| 0 <= d < 7 ==> fits_line(#[trigger] days[d]),
    ensures
        apply_lines(r, block, day_bodies(days, n)) == (RiverView {
            days: days_read(r.days, days, n),
            tweets: r.tweets,
        }),
    decreases n,
{
    if n == 0 {
        assert(day_bodies(days, 0) =~= Seq::<Seq<char>>::empty());
        assert(days_read(r.days, days, 0) =~= r.days);
    } else {
        lemma_apply_day_lines(r, block, days, n - 1);
        assert(day_bodies(days, n).drop_last() =~= day_bodies(days, n - 1));
        assert(day_bodies(days, n).last() == day_body(days, n - 1));
        lemma_day_body(days, n - 1);
        lemma_day_name_facts(n - 1);
        assert(days_read(r.days, days, n - 1).update(n - 1, collapse_ws(trim(days[n - 1])))
            =~= days_read(r.days, days, n));
    }
}

/// Reading the day block sets every day.
proof fn lemma_read_days(r: RiverView, days: Seq<Seq<char>>, rest: Seq<char>)
    requires
        r.days.len() == 7,
        days.len() == 7,
        forall|d: int| 0 <= d < 7 ==> fits_line(#[trigger] days[d]),
    ensures
        parse_text(r, days_block(days, 7) + nn() + rest) == parse_text(
            RiverView { days: days_read(r.days, days, 7), tweets: r.tweets },
            rest,
        ),
{
    lemma_days_block_lines(days, 7);
    lemma_apply_day_lines(r, days_block(days, 7), days, 7);
    let ls = day_bodies(days, 7);
    assert(!fields_only(ls)) by {
        assert forall|i: int| 0 <= i < ls.len() implies !field_line(#[trigger] ls[i]) by {
            lemma_day_body(days, i);
            lemma_day_name_facts(i);
        }
    }
    lemma_parse_peel(r, days_block(days, 7), rest);
}

/// A tweet's entry without its closing blank line.
pub open spec fn entry_block(t: TweetView, with_name_as_text: bool) -> Seq<char> {
    "tweet] "@ + shown_text(t, with_name_as_text) + nl() + "image] "@ + t.image + nl() + "state] "@
        + state_label(t.state)
}

/// The tweet that reading the entry of `t` queues: its shown text and its
/// image, trimmed, and the state that the entry shows.
pub open spec fn reread_tweet(t: TweetView, with_name_as_text: bool) -> TweetView {
    TweetView {
        text: trim(shown_text(t, with_name_as_text)),
        image: trim(t.image),
        state: state_label(t.state),
    }
}

proof fn lemma_state_label_facts(state: Seq<char>)
    ensures
        fits_line(state_label(state)),
        state_label(state).len() > 0,
        trim(state_label(state)) == state_label(state),
{
    let l = state_label(state);
    assert(trim_start(l) == l);
    assert(trim_end(l) == l);
    assert(!l.contains(']')) by {
        if l.contains(']') {
            let i = choose|i: int| 0 <= i < l.len() && l[i] == ']';
        }
    }
    assert(!l.contains('\n')) by {
        if l.contains('\n') {
            let i = choose|i: int| 0 <= i < l.len() && l[i] == '\n';
        }
    }
}

proof fn lemma_tagged_line(tag: Seq<char>, v: Seq<char>)
    requires
        tag.len() == 5,
        fits_line(tag),
        trim(tag) == tag,
        fits_line(v),
    ensures
        (tag + seq![']', ' '] + v).len() > 0,
        !(tag + seq![']', ' '] + v).contains('\n'),
        (tag + seq![']', ' '] + v).contains(']'),
        line_key(tag + seq![']', ' '] + v) == tag,
        line_value(tag + seq![']', ' '] + v) == trim(v),
        day_index(tag) is None,
{
    let w = seq![' '] + v;
    let l = tag + seq![']', ' '] + v;
    assert(l =~= tag + seq![']'] + w);
    assert(!w.contains(']')) by {
        if w.contains(']') {
            let i = choose|i: int| 0 <= i < w.len() && w[i] == ']';
            assert(v[i - 1] == ']');
        }
    }
    lemma_key_value(tag, w);
    lemma_trim_space_front(v);
    assert(!l.contains('\n')) by {
        if l.contains('\n') {
            let i = choose|i: int| 0 <= i < l.len() && l[i] == '\n';
            if i < 5 {
                assert(tag[i] == '\n');
            } else if i >= 7 {
                assert(v[i - 7] == '\n');
            }
        }
    }
}

proof fn lemma_read_entry(r: RiverView, t: TweetView, w: bool)
    requires
        fits_line(shown_text(t, w)),
        fits_line(t.image),
    ensures
        no_blank_line(entry_block(t, w)),
        open_end(entry_block(t, w)),
        apply_block(r, entry_block(t, w)) == (RiverView {
            tweets: r.tweets.push(reread_tweet(t, w)),
            ..r
        }),
{
    reveal_strlit("tweet] ");
    reveal_strlit("image] ");
    reveal_strlit("state] ");
    let x = shown_text(t, w);
    let s = state_label(t.state);
    lemma_state_label_facts(t.state);
    let kt = kw_tweet();
    let ki = kw_image();
    let ks = kw_state();
    assert(trim_start(kt) == kt && trim_end(kt) == kt);
    assert(trim_start(ki) == ki && trim_end(ki) == ki);
    assert(trim_start(ks) == ks && trim_end(ks) == ks);
    assert(fits_line(kt) && fits_line(ki) && fits_line(ks)) by {
        if kt.contains(']') || kt.contains('\n') {
            let i = choose|i: int| 0 <= i < kt.len() && (kt[i] == ']' || kt[i] == '\n');
        }
        if ki.contains(']') || ki.contains('\n') {
            let i = choose|i: int| 0 <= i < ki.len() && (ki[i] == ']' || ki[i] == '\n');
        }
        if ks.contains(']') || ks.contains('\n') {
            let i = choose|i: int| 0 <= i < ks.len() && (ks[i] == ']' || ks[i] == '\n');
        }
    }
    let l1 = kt + seq![']', ' '] + x;
    let l2 = ki + seq![']', ' '] + t.image;
    let l3 = ks + seq![']', ' '] + s;
    assert("tweet] "@ + x =~= l1);
    assert("image] "@ + t.image =~= l2);
    assert("state] "@ + s =~= l3);
    lemma_tagged_line(kt, x);
    lemma_tagged_line(ki, t.image);
    lemma_tagged_line(ks, s);
    let b = entry_block(t, w);
    assert(b =~= l1 + nl() + l2 + nl() + l3);
    lemma_three_lines(l1, l2, l3);
    // the tweet that the block describes
    let e = empty_tweet();
    let ls = seq![l1, l2, l3];
    assert(ls.drop_last() =~= seq![l1, l2]);
    assert(seq![l1, l2].drop_last() =~= seq![l1]);
    assert(seq![l1].drop_last() =~= Seq::<Seq<char>>::empty());
    assert(tweet_fold(Seq::empty()) == (kt, e));
    assert(Seq::<char>::empty() + trim(x) =~= trim(x));
    assert(Seq::<char>::empty() + trim(t.image) =~= trim(t.image));
    assert(Seq::<char>::empty() + s =~= s);
    assert(ki != kt) by {
        assert(ki[0] != kt[0]);
    }
    assert(ks != kt && ks != ki) by {
        assert(ks[0] != kt[0]);
        assert(ks[0] != ki[0]);
    }
    assert(tweet_fold(seq![l1]).1 == TweetView { text: trim(x), ..e });
    assert(tweet_fold(seq![l1, l2]).1 == TweetView { text: trim(x), image: trim(t.image), ..e });
    assert(tweet_fold(ls).1 == reread_tweet(t, w));
    assert(block_tweet(b) == reread_tweet(t, w));
    // the lines as read into the river
    assert(!lower_eq(ki, kt)) by {
        assert(ascii_lower(ki[0]) != kt[0]);
    }
    assert(!lower_eq(ks, kt)) by {
        assert(ascii_lower(ks[0]) != kt[0]);
    }
    assert(lower_eq(kt, kt));
    let r1 = RiverView { tweets: r.tweets.push(reread_tweet(t, w)), ..r };
    assert(apply_lines(r, b, Seq::empty()) == r);
    assert(apply_lines(r, b, seq![l1]) == r1);
    assert(apply_lines(r, b, seq![l1, l2]) == r1);
    assert(apply_lines(r, b, ls) == r1);
}

proof fn lemma_entries_front(ts: Seq<TweetView>, w: bool)
    requires
        ts.len() > 0,
    ensures
        entries_text(ts, w) == entry_block(ts[0], w) + nn() + entries_text(ts.drop_first(), w),
    decreases ts.len(),
{
    assert(entry_text(ts[0], w) =~= entry_block(ts[0], w) + nn());
    if ts.len() == 1 {
        assert(ts.drop_last() =~= Seq::<TweetView>::empty());
        assert(ts.drop_first() =~= Seq::<TweetView>::empty());
        assert(entries_text(Seq::<TweetView>::empty(), w) == Seq::<char>::empty());
        assert(entries_text(ts, w) =~= entry_block(ts[0], w) + nn() + entries_text(
            ts.drop_first(),
            w,
        ));
    } else {
        lemma_entries_front(ts.drop_last(), w);
        assert(ts.drop_last().drop_first() =~= ts.drop_first().drop_last());
        assert(ts.drop_first().last() == ts.last());
        assert(entries_text(ts, w) =~= entry_block(ts[0], w) + nn() + entries_text(
            ts.drop_first(),
            w,
        ));
    }
}

pub open spec fn reread_all(ts: Seq<TweetView>, w: bool) -> Seq<TweetView> {
    ts.map_values(|t: TweetView| reread_tweet(t, w))
}

/// Every tweet's shown text and image fit on their lines.
pub open spec fn entries_fit(ts: Seq<TweetView>, w: bool) -> bool {
    forall|i: int|
        0 <= i < ts.len() ==> fits_line(shown_text(#[trigger] ts[i], w)) && fits_line(ts[i].image)
}

proof fn lemma_read_entries(r: RiverView, ts: Seq<TweetView>, w: bool)
    requires
        entries_fit(ts, w),
    ensures
        parse_text(r, entries_text(ts, w)) == (RiverView {
            tweets: r.tweets + reread_all(ts, w),
            ..r
        }),
    decreases ts.len(),
{
    if ts.len() == 0 {
        assert(entries_text(ts, w) == Seq::<char>::empty());
        lemma_parse_empty(r);
        assert(r.tweets + reread_all(ts, w) =~= r.tweets);
    } else {
        let t = ts[0];
        assert(fits_line(shown_text(ts[0], w)) && fits_line(ts[0].image));
        lemma_entries_front(ts, w);
        lemma_read_entry(r, t, w);
        lemma_parse_peel(r, entry_block(t, w), entries_text(ts.drop_first(), w));
        let r1 = RiverView { tweets: r.tweets.push(reread_tweet(t, w)), ..r };
        assert(entries_fit(ts.drop_first(), w)) by {
            assert forall|i: int| 0 <= i < ts.drop_first().len() implies fits_line(
                shown_text(#[trigger] ts.drop_first()[i], w),
            ) && fits_line(ts.drop_first()[i].image) by {
                assert(ts.drop_first()[i] == ts[i + 1]);
            }
        }
        lemma_read_entries(r1, ts.drop_first(), w);
        assert(r1.tweets + reread_all(ts.drop_first(), w) =~= r.tweets + reread_all(ts, w));
    }
}

/// Reading the text of a river gives back its day entries, with white space
/// collapsed, and queues its tweets in order, with their shown text and image
/// trimmed and their state as the text shows it; whatever was queued before
/// stays.  This holds whenever no day entry, shown text or image holds `]`
/// or a line break.
pub proof fn law_text_reads_back(r0: RiverView, r: RiverView, with_name_as_text: bool)
    requires
        r0.days.len() == 7,
        r.days.len() == 7,
        forall|d: int| 0 <= d < 7 ==> fits_line(#[trigger] r.days[d]),
        entries_fit(r.tweets, with_name_as_text),
    ensures
        parse_text(r0, river_text(r, with_name_as_text)) == (RiverView {
            days: r.days.map_values(|d: Seq<char>| collapse_ws(trim(d))),
            tweets: r0.tweets + reread_all(r.tweets, with_name_as_text),
        }),
{
    let w = with_name_as_text;
    let b1 = "schedule]"@;
    let c1 = "# Times using 24-hour clock and daily tags, as much as you like."@;
    let c2 = "# sun] 10 13 16 #sundaytag"@;
    let b3 = days_block(r.days, 7);
    let e = entries_text(r.tweets, w);
    let rest3 = queue_open_block() + nn() + (queue_note_block() + nn() + (queue_hint_block() + nn()
        + e));
    let rest2 = b3 + nn() + rest3;
    lemma_day_lines(r.days, 7);
    assert(queue_open_block() + nn() =~= nl() + "tweets]"@ + nn());
    assert(river_text(r, w) =~= b1 + nn() + (c1 + nl() + c2 + nn() + rest2));
    lemma_read_header(r0, rest2);
    lemma_read_days(r0, r.days, rest3);
    let r1 = RiverView { days: days_read(r0.days, r.days, 7), tweets: r0.tweets };
    lemma_read_queue_header(r1, e);
    lemma_read_entries(r1, r.tweets, w);
    assert(days_read(r0.days, r.days, 7) =~= r.days.map_values(
        |d: Seq<char>| collapse_ws(trim(d)),
    ));
}

/// Every day entry has its white space collapsed.
pub open spec fn days_collapsed(days: Seq<Seq<char>>) -> bool {
    forall|d: int| 0 <= d < days.len() ==> collapse_ws(#[trigger] days[d]) == days[d]
}

/// What reading keeps of a river: its queue, as a prefix, the number of day
/// entries, and collapsed white space in every entry.
pub open spec fn keeps(r: RiverView, r2: RiverView) -> bool {
    &&& r2.days.len() == r.days.len()
    &&& r2.tweets.len() >= r.tweets.len()
    &&& r2.tweets.take(r.tweets.len() as int) == r.tweets
    &&& days_collapsed(r.days) ==> days_collapsed(r2.days)
}

proof fn lemma_keeps_trans(a: RiverView, b: RiverView, c: RiverView)
    requires
        keeps(a, b),
        keeps(b, c),
    ensures
        keeps(a, c),
{
    assert(c.tweets.take(a.tweets.len() as int) =~= c.tweets.take(b.tweets.len() as int).take(
        a.tweets.len() as int,
    ));
}

proof fn lemma_line_keeps(r: RiverView, block: Seq<char>, line: Seq<char>)
    requires
        r.days.len() == 7,
    ensures
        keeps(r, apply_line(r, block, line)),
{
    let r2 = apply_line(r, block, line);
    if line.contains(']') {
        match day_index(line_key(line)) {
            Some(d) => {
                assert(0 <= d < 7);
                law_collapse_ws_idempotent(line_value(line));
                assert(r2.tweets.take(r.tweets.len() as int) =~= r.tweets);
                if days_collapsed(r.days) {
                    assert forall|i: int| 0 <= i < r2.days.len() implies collapse_ws(
                        #[trigger] r2.days[i],
                    ) == r2.days[i] by {
                        if i != d {
                            assert(r2.days[i] == r.days[i]);
                        }
                    }
                }
            },
            None => {
                assert(r2.tweets.take(r.tweets.len() as int) =~= r.tweets);
            },
        }
    } else {
        assert(r2.tweets.take(r.tweets.len() as int) =~= r.tweets);
    }
}

proof fn lemma_lines_keep(r: RiverView, block: Seq<char>, ls: Seq<Seq<char>>)
    requires
        r.days.len() == 7,
    ensures
        keeps(r, apply_lines(r, block, ls)),
    decreases ls.len(),
{
    if ls.len() == 0 {
        assert(r.tweets.take(r.tweets.len() as int) =~= r.tweets);
    } else {
        lemma_lines_keep(r, block, ls.drop_last());
        let m = apply_lines(r, block, ls.drop_last());
        lemma_line_keeps(m, block, ls.last());
        lemma_keeps_trans(r, m, apply_line(m, block, ls.last()));
    }
}

proof fn lemma_blocks_keep(r: RiverView, bs: Seq<Seq<char>>)
    requires
        r.days.len() == 7,
    ensures
        keeps(r, apply_blocks(r, bs)),
    decreases bs.len(),
{
    if bs.len() == 0 {
        assert(r.tweets.take(r.tweets.len() as int) =~= r.tweets);
    } else {
        lemma_blocks_keep(r, bs.drop_last());
        let m = apply_blocks(r, bs.drop_last());
        let b = bs.last();
        let ls = split_on(b, '\n');
        lemma_lines_keep(m, b, ls);
        let m1 = apply_lines(m, b, ls);
        if fields_only(ls) {
            let m2 = RiverView { tweets: m1.tweets.push(block_tweet(b)), ..m1 };
            assert(m2.tweets.take(m1.tweets.len() as int) =~= m1.tweets);
            lemma_keeps_trans(m, m1, m2);
        }
        lemma_keeps_trans(r, m, apply_block(m, b));
    }
}

/// Reading a text into a river never drops or changes a queued tweet, only
/// queues more after them; it keeps the seven day entries, and every entry
/// it sets has its white space collapsed.
pub proof fn law_reading_keeps_queue(r: RiverView, content: Seq<char>)
    requires
        r.days.len() == 7,
    ensures
        keeps(r, parse_text(r, content)),
{
    lemma_blocks_keep(r, split_blocks(content));
}

/// A tweet as reading gives it: text and image trimmed, and a state that
/// the text shows unchanged.
pub open spec fn tweet_settled(t: TweetView) -> bool {
    &&& trim(t.text) == t.text
    &&& trim(t.image) == t.image
    &&& state_label(t.state) == t.state
}

/// Writing a river whose entries are already as reading leaves them, and
/// reading the text back, gives the same day entries and queues the same
/// tweets.
pub proof fn law_settled_river_reads_back(r0: RiverView, r: RiverView)
    requires
        r0.days.len() == 7,
        r.days.len() == 7,
        forall|d: int| 0 <= d < 7 ==> fits_line(#[trigger] r.days[d]),
        days_collapsed(r.days),
        entries_fit(r.tweets, false),
        forall|i: int| 0 <= i < r.tweets.len() ==> tweet_settled(#[trigger] r.tweets[i]),
    ensures
        parse_text(r0, river_text(r, false)) == (RiverView {
            days: r.days,
            tweets: r0.tweets + r.tweets,
        }),
{
    law_text_reads_back(r0, r, false);
    assert forall|d: int| 0 <= d < 7 implies collapse_ws(trim(#[trigger] r.days[d])) == r.days[d] by {
        law_collapse_ws_trimmed(r.days[d]);
    }
    assert(r.days.map_values(|d: Seq<char>| collapse_ws(trim(d))) =~= r.days);
    assert forall|i: int| 0 <= i < r.tweets.len() implies reread_tweet(#[trigger] r.tweets[i], false)
        == r.tweets[i] by {
        assert(tweet_settled(r.tweets[i]));
    }
    assert(reread_all(r.tweets, false) =~= r.tweets);
}

proof fn lemma_entries_concat(a: Seq<TweetView>, b: Seq<TweetView>, w: bool)
    ensures
        entries_text(a + b, w) == entries_text(a, w) + entries_text(b, w),
    decreases b.len(),
{
    if b.len() == 0 {
        assert(a + b =~= a);
        assert(entries_text(a, w) + entries_text(b, w) =~= entries_text(a, w));
    } else {
        lemma_entries_concat(a, b.drop_last(), w);
        assert((a + b).drop_last() =~= a + b.drop_last());
        assert((a + b).last() == b.last());
        assert(entries_text(a + b, w) =~= entries_text(a, w) + entries_text(b, w));
    }
}

/// The text of a queue split in two is the text of the first part followed
/// by the entries of the second, that is, the text of the second without
/// what an empty queue's text holds.
pub proof fn law_text_of_joined_queues(
    days: Seq<Seq<char>>,
    q1: Seq<TweetView>,
    q2: Seq<TweetView>,
    with_name_as_text: bool,
)
    ensures
        river_text(RiverView { days, tweets: q1 + q2 }, with_name_as_text) == river_text(
            RiverView { days, tweets: q1 },
            with_name_as_text,
        ) + river_text(RiverView { days, tweets: q2 }, with_name_as_text).skip(
            river_text(RiverView { days, tweets: Seq::empty() }, with_name_as_text).len() as int,
        ),
{
    let w = with_name_as_text;
    lemma_entries_concat(q1, q2, w);
    let e: Seq<TweetView> = Seq::empty();
    assert(entries_text(e, w) == Seq::<char>::empty());
    let pre = river_text(RiverView { days, tweets: e }, w);
    assert(river_text(RiverView { days, tweets: q2 }, w) =~= pre + entries_text(q2, w));
    assert(river_text(RiverView { days, tweets: q2 }, w).skip(pre.len() as int) =~= entries_text(
        q2,
        w,
    ));
    assert(river_text(RiverView { days, tweets: q1 + q2 }, w) =~= river_text(
        RiverView { days, tweets: q1 },
        w,
    ) + entries_text(q2, w));
}

} // verus!
