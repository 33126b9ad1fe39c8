use vstd::prelude::*;

verus! {

/// The characters of `s`, one by one.
pub fn chars_of(s: &str) -> (r: Vec<char>)
    ensures
        r@ == s@,
{
    let mut r: Vec<char> = Vec::new();
    for c in it: s.chars()
        invariant
            r@ == it.seq().take(it.index() as int),
    {
        r.push(c);
    }
    r
}

/// `String::push`: the string gains `c` at its end.
#[verifier::external_body]
fn push_char(s: &mut String, c: char)
    ensures
        final(s)@ == old(s)@.push(c),
{
    s.push(c);
}

/// The string made of the characters of `v`.
pub fn string_of(v: &Vec<char>) -> (r: String)
    ensures
        r@ == v@,
{
    let mut r = String::new();
    for i in 0..v.len()
        invariant
            r@ == v@.take(i as int),
    {
        push_char(&mut r, v[i]);
        assert(v@.take(i + 1) == v@.take(i as int).push(v@[i as int]));
    }
    assert(v@.take(v.len() as int) == v@);
    r
}

/// The characters with the Unicode `White_Space` property, which is what
/// `char::is_whitespace` tests and what `str::trim` and
/// `str::split_whitespace` strip.
pub open spec fn is_ws(c: char) -> bool {
    ||| c == '\t' || c == '\n' || c == '\u{0B}' || c == '\u{0C}' || c == '\r' || c == ' '
    ||| c == '\u{85}' || c == '\u{A0}' || c == '\u{1680}'
    ||| ('\u{2000}' <= c && c <= '\u{200A}')
    ||| c == '\u{2028}' || c == '\u{2029}' || c == '\u{202F}' || c == '\u{205F}'
    ||| c == '\u{3000}'
}

pub fn is_whitespace(c: char) -> (r: bool)
    ensures
        r == is_ws(c),
{
    c == '\t' || c == '\n' || c == '\u{0B}' || c == '\u{0C}' || c == '\r' || c == ' '
        || c == '\u{85}' || c == '\u{A0}' || c == '\u{1680}' || ('\u{2000}' <= c && c
        <= '\u{200A}') || c == '\u{2028}' || c == '\u{2029}' || c == '\u{202F}' || c
        == '\u{205F}' || c == '\u{3000}'
}

/// `s` with its leading white space removed.
pub open spec fn trim_start(s: Seq<char>) -> Seq<char>
    decreases s.len(),
{
    if s.len() > 0 && is_ws(s[0]) {
        trim_start(s.skip(1))
    } else {
        s
    }
}

/// `s` with its trailing white space removed.
pub open spec fn trim_end(s: Seq<char>) -> Seq<char>
    decreases s.len(),
{
    if s.len() > 0 && is_ws(s.last()) {
        trim_end(s.drop_last())
    } else {
        s
    }
}

/// `s` with its leading and trailing white space removed, as `str::trim` does.
pub open spec fn trim(s: Seq<char>) -> Seq<char> {
    trim_end(trim_start(s))
}

pub fn trim_chars(s: &Vec<char>) -> (r: Vec<char>)
    ensures
        r@ == trim(s@),
{
    let n = s.len();
    let mut i: usize = 0;
    assert(s@.skip(0) =~= s@);
    while i < n && is_whitespace(s[i])
        invariant
            i <= n,
            n == s@.len(),
            trim_start(s@) == trim_start(s@.skip(i as int)),
        decreases n - i,
    {
        assert(s@.skip(i as int).skip(1) =~= s@.skip(i + 1));
        i = i + 1;
    }
    assert(s@.skip(i as int) =~= s@.subrange(i as int, n as int));
    let mut j: usize = n;
    while j > i && is_whitespace(s[j - 1])
        invariant
            i <= j <= n,
            n == s@.len(),
            trim_start(s@) == s@.subrange(i as int, n as int),
            trim(s@) == trim_end(s@.subrange(i as int, j as int)),
        decreases j,
    {
        assert(s@.subrange(i as int, j as int).drop_last() =~= s@.subrange(i as int, j - 1));
        j = j - 1;
    }
    let mut r: Vec<char> = Vec::new();
    let mut k: usize = i;
    while k < j
        invariant
            i <= k <= j <= n,
            n == s@.len(),
            r@ == s@.subrange(i as int, k as int),
        decreases j - k,
    {
        r.push(s[k]);
        assert(s@.subrange(i as int, k + 1) =~= s@.subrange(i as int, k as int).push(s@[k as int]));
        k = k + 1;
    }
    r
}

/// The contents of a vector of character vectors, piece by piece.
pub open spec fn views(v: Seq<Vec<char>>) -> Seq<Seq<char>> {
    v.map_values(|x: Vec<char>| x@)
}

/// One step of cutting text at a separator character: `c` either ends
/// the current (last) piece or is appended to it.
pub open spec fn split_step(p: Seq<Seq<char>>, c: char, sep: char) -> Seq<Seq<char>> {
    if c == sep {
        p.push(Seq::empty())
    } else {
        p.update(p.len() - 1, p.last().push(c))
    }
}

pub open spec fn split_from(p: Seq<Seq<char>>, s: Seq<char>, sep: char) -> Seq<Seq<char>>
    decreases s.len(),
{
    if s.len() == 0 {
        p
    } else {
        split_step(split_from(p, s.drop_last(), sep), s.last(), sep)
    }
}

/// The pieces of `s` between the occurrences of `sep`, as `str::split` with a
/// `char` pattern yields them: `n` occurrences give `n + 1` pieces.
pub open spec fn split_on(s: Seq<char>, sep: char) -> Seq<Seq<char>> {
    split_from(seq![Seq::empty()], s, sep)
}

/// One step of cutting text at each blank line (`"\n\n"`), matched from the
/// left without overlap: a newline that follows an unmatched newline closes
/// the current piece.
pub open spec fn block_step(p: Seq<Seq<char>>, c: char) -> Seq<Seq<char>> {
    if c == '\n' && p.last().len() > 0 && p.last().last() == '\n' {
        p.update(p.len() - 1, p.last().drop_last()).push(Seq::empty())
    } else {
        p.update(p.len() - 1, p.last().push(c))
    }
}

pub open spec fn blocks_from(p: Seq<Seq<char>>, s: Seq<char>) -> Seq<Seq<char>>
    decreases s.len(),
{
    if s.len() == 0 {
        p
    } else {
        block_step(blocks_from(p, s.drop_last()), s.last())
    }
}

/// The pieces of `s` between the occurrences of `"\n\n"`, as `str::split`
/// with that pattern yields them.
pub open spec fn split_blocks(s: Seq<char>) -> Seq<Seq<char>> {
    blocks_from(seq![Seq::empty()], s)
}

pub proof fn lemma_split_from_len(p: Seq<Seq<char>>, s: Seq<char>, sep: char)
    requires
        p.len() >= 1,
    ensures
        split_from(p, s, sep).len() >= p.len(),
    decreases s.len(),
{
    if s.len() > 0 {
        lemma_split_from_len(p, s.drop_last(), sep);
    }
}

pub proof fn lemma_blocks_from_len(p: Seq<Seq<char>>, s: Seq<char>)
    requires
        p.len() >= 1,
    ensures
        blocks_from(p, s).len() >= p.len(),
    decreases s.len(),
{
    if s.len() > 0 {
        lemma_blocks_from_len(p, s.drop_last());
    }
}

pub fn split_chars(s: &Vec<char>, sep: char) -> (r: Vec<Vec<char>>)
    ensures
        views(r@) == split_on(s@, sep),
{
    let mut done: Vec<Vec<char>> = Vec::new();
    let mut cur: Vec<char> = Vec::new();
    let n = s.len();
    assert(s@.take(0) =~= Seq::<char>::empty());
    assert(views(done@).push(cur@) =~= seq![Seq::<char>::empty()]);
    for i in 0..n
        invariant
            n == s@.len(),
            split_on(s@.take(i as int), sep) == views(done@).push(cur@),
    {
        let c = s[i];
        assert(s@.take(i + 1).drop_last() =~= s@.take(i as int));
        let ghost before = views(done@).push(cur@);
        if c == sep {
            done.push(cur);
            cur = Vec::new();
            assert(views(done@).push(cur@) =~= before.push(Seq::empty()));
        } else {
            cur.push(c);
            assert(views(done@).push(cur@) =~= before.update(before.len() - 1, before.last().push(c)));
        }
    }
    assert(s@.take(n as int) =~= s@);
    done.push(cur);
    assert(views(done@) =~= split_on(s@, sep));
    done
}

pub fn split_blocks_chars(s: &Vec<char>) -> (r: Vec<Vec<char>>)
    ensures
        views(r@) == split_blocks(s@),
{
    let mut done: Vec<Vec<char>> = Vec::new();
    let mut cur: Vec<char> = Vec::new();
    let n = s.len();
    assert(s@.take(0) =~= Seq::<char>::empty());
    assert(views(done@).push(cur@) =~= seq![Seq::<char>::empty()]);
    for i in 0..n
        invariant
            n == s@.len(),
            split_blocks(s@.take(i as int)) == views(done@).push(cur@),
    {
        let c = s[i];
        assert(s@.take(i + 1).drop_last() =~= s@.take(i as int));
        let ghost before = views(done@).push(cur@);
        if c == '\n' && cur.len() > 0 && cur[cur.len() - 1] == '\n' {
            cur.pop();
            done.push(cur);
            cur = Vec::new();
            assert(views(done@).push(cur@) =~= before.update(
                before.len() - 1,
                before.last().drop_last(),
            ).push(Seq::empty()));
        } else {
            cur.push(c);
            assert(views(done@).push(cur@) =~= before.update(before.len() - 1, before.last().push(c)));
        }
    }
    assert(s@.take(n as int) =~= s@);
    done.push(cur);
    assert(views(done@) =~= split_blocks(s@));
    done
}

/// The maximal runs of non-white-space characters of `s`, in order, as
/// `str::split_whitespace` yields them.
pub open spec fn words(s: Seq<char>) -> Seq<Seq<char>>
    decreases s.len(),
{
    if s.len() == 0 {
        Seq::empty()
    } else {
        let w = words(s.drop_last());
        let c = s.last();
        if is_ws(c) {
            w
        } else if s.len() > 1 && !is_ws(s[s.len() - 2]) {
            w.update(w.len() - 1, w.last().push(c))
        } else {
            w.push(seq![c])
        }
    }
}

/// The pieces `ws` with `sep` between each two of them, as `join` on a slice
/// of strings gives them.
pub open spec fn join(ws: Seq<Seq<char>>, sep: Seq<char>) -> Seq<char>
    decreases ws.len(),
{
    if ws.len() == 0 {
        Seq::empty()
    } else if ws.len() == 1 {
        ws[0]
    } else {
        join(ws.drop_last(), sep) + sep + ws.last()
    }
}

/// The words of `s` joined by single spaces.
pub open spec fn collapse_ws(s: Seq<char>) -> Seq<char> {
    join(words(s), seq![' '])
}

pub proof fn lemma_words_nonempty(s: Seq<char>)
    requires
        s.len() > 0,
        !is_ws(s.last()),
    ensures
        words(s).len() > 0,
    decreases s.len(),
{
    if s.len() > 1 && !is_ws(s[s.len() - 2]) {
        assert(s.drop_last().last() == s[s.len() - 2]);
        lemma_words_nonempty(s.drop_last());
    }
}

pub proof fn lemma_join_extend_last(ws: Seq<Seq<char>>, sep: Seq<char>, c: char)
    requires
        ws.len() > 0,
    ensures
        join(ws.update(ws.len() - 1, ws.last().push(c)), sep) == join(ws, sep).push(c),
{
    let w2 = ws.update(ws.len() - 1, ws.last().push(c));
    if ws.len() > 1 {
        assert(w2.drop_last() =~= ws.drop_last());
        assert(join(w2, sep) =~= join(ws, sep).push(c));
    }
}

pub proof fn lemma_join_push(ws: Seq<Seq<char>>, sep: Seq<char>, x: Seq<char>)
    ensures
        join(ws.push(x), sep) == (if ws.len() == 0 { x } else { join(ws, sep) + sep + x }),
{
    assert(ws.push(x).drop_last() =~= ws);
}

pub fn collapse_chars(s: &Vec<char>) -> (r: Vec<char>)
    ensures
        r@ == collapse_ws(s@),
{
    let mut out: Vec<char> = Vec::new();
    let mut any = false;
    let n = s.len();
    assert(s@.take(0) =~= Seq::<char>::empty());
    for i in 0..n
        invariant
            n == s@.len(),
            out@ == collapse_ws(s@.take(i as int)),
            any == (words(s@.take(i as int)).len() > 0),
    {
        let c = s[i];
        let ghost pre = s@.take(i as int);
        let ghost cur = s@.take(i + 1);
        assert(cur.drop_last() =~= pre);
        assert(cur.last() == c);
        if is_whitespace(c) {
        } else if i > 0 && !is_whitespace(s[i - 1]) {
            assert(cur[cur.len() - 2] == pre.last());
            proof {
                lemma_words_nonempty(pre);
                lemma_join_extend_last(words(pre), seq![' '], c);
            }
            out.push(c);
        } else {
            proof {
                lemma_join_push(words(pre), seq![' '], seq![c]);
            }
            if any {
                out.push(' ');
            }
            out.push(c);
            assert(out@ =~= collapse_ws(cur));
            any = true;
        }
    }
    assert(s@.take(n as int) =~= s@);
    out
}

/// `c` with an ASCII capital letter mapped to its small letter.
pub open spec fn ascii_lower(c: char) -> char {
    if 'A' <= c && c <= 'Z' {
        ((c as int) + 32) as char
    } else {
        c
    }
}

/// `s` equals the keyword `kw` (written in ASCII small letters) up to ASCII
/// case.  For a keyword without the letter `k`, this is exactly the test
/// `s.to_lowercase() == kw`: the only other characters whose lower case
/// holds an ASCII letter are U+212A (lower case `k`) and U+0130 (`i` and a
/// combining dot, one character too many).
pub open spec fn lower_eq(s: Seq<char>, kw: Seq<char>) -> bool {
    s.len() == kw.len() && forall|i: int| 0 <= i < s.len() ==> ascii_lower(#[trigger] s[i]) == kw[i]
}

/// `s` with each ASCII capital letter made small.
pub open spec fn lowered(s: Seq<char>) -> Seq<char> {
    s.map_values(|c: char| ascii_lower(c))
}

/// Comparing up to ASCII case is comparing the ASCII-lowered text.
pub proof fn lemma_lower_eq_lowered(s: Seq<char>, kw: Seq<char>)
    ensures
        lower_eq(s, kw) <==> lowered(s) == kw,
{
    if lower_eq(s, kw) {
        assert(lowered(s) =~= kw);
    }
    if lowered(s) == kw {
        assert forall|i: int| 0 <= i < s.len() implies ascii_lower(#[trigger] s[i]) == kw[i] by {
            assert(lowered(s)[i] == ascii_lower(s[i]));
        }
    }
}

pub fn lower_char(c: char) -> (r: char)
    ensures
        r == ascii_lower(c),
{
    if 'A' <= c && c <= 'Z' {
        ((c as u8) + 32) as char
    } else {
        c
    }
}

pub fn eq_lower(s: &Vec<char>, kw: &[char]) -> (r: bool)
    ensures
        r == lower_eq(s@, kw@),
{
    if s.len() != kw.len() {
        return false;
    }
    let n = s.len();
    for i in 0..n
        invariant
            n == s@.len(),
            n == kw@.len(),
            forall|j: int| 0 <= j < i ==> ascii_lower(#[trigger] s@[j]) == kw@[j],
    {
        if lower_char(s[i]) != kw[i] {
            return false;
        }
    }
    true
}

pub fn has_char(s: &Vec<char>, c: char) -> (r: bool)
    ensures
        r == s@.contains(c),
{
    let n = s.len();
    for i in 0..n
        invariant
            n == s@.len(),
            forall|j: int| 0 <= j < i ==> s@[j] != c,
    {
        if s[i] == c {
            assert(s@[i as int] == c);
            return true;
        }
    }
    false
}

/// A component that names a file or directory: not empty, as the separator
/// `/` repeated leaves, and not the current directory `.`.
pub open spec fn is_named_part(p: Seq<char>) -> bool {
    p.len() > 0 && p != seq!['.']
}

/// The last named component among `parts`.
pub open spec fn last_named(parts: Seq<Seq<char>>) -> Option<Seq<char>>
    decreases parts.len(),
{
    if parts.len() == 0 {
        None
    } else if is_named_part(parts.last()) {
        Some(parts.last())
    } else {
        last_named(parts.drop_last())
    }
}

/// The final component of the path `s` as `Path::file_name` gives it with
/// `/` as separator: the last component, unless that is `..` or the path
/// has none (it is empty, the root, or `.`).
pub open spec fn file_name(s: Seq<char>) -> Option<Seq<char>> {
    match last_named(split_on(s, '/')) {
        Some(p) => if p == seq!['.', '.'] {
            None
        } else {
            Some(p)
        },
        None => None,
    }
}

pub fn file_name_chars(s: &Vec<char>) -> (r: Option<Vec<char>>)
    ensures
        match r {
            Some(v) => file_name(s@) == Some(v@),
            None => file_name(s@) is None,
        },
{
    let parts = split_chars(s, '/');
    let mut k = parts.len();
    assert(views(parts@).take(k as int) =~= views(parts@));
    while k > 0
        invariant
            k <= parts@.len(),
            views(parts@) == split_on(s@, '/'),
            last_named(views(parts@)) == last_named(views(parts@).take(k as int)),
            forall|j: int| k <= j < parts@.len() ==> !is_named_part(#[trigger] views(parts@)[j]),
        decreases k,
    {
        let p = &parts[k - 1];
        let ghost pre = views(parts@).take(k as int);
        assert(pre.last() == p@);
        if p.len() > 0 && !(p.len() == 1 && p[0] == '.') {
            assert(p@ != seq!['.']) by {
                if p@ == seq!['.'] {
                    assert(p@.len() == 1 && p@[0] == '.');
                }
            }
            assert(last_named(pre) == Some(p@));
            let is_parent = p.len() == 2 && p[0] == '.' && p[1] == '.';
            if is_parent {
                assert(p@ =~= seq!['.', '.']);
                return None;
            } else {
                assert(p@ != seq!['.', '.']) by {
                    if p@ == seq!['.', '.'] {
                        assert(p@.len() == 2 && p@[0] == '.' && p@[1] == '.');
                    }
                }
                let mut out: Vec<char> = Vec::new();
                let m = p.len();
                for i in 0..m
                    invariant
                        m == p@.len(),
                        out@ == p@.take(i as int),
                {
                    out.push(p[i]);
                    assert(p@.take(i + 1) =~= p@.take(i as int).push(p@[i as int]));
                }
                assert(p@.take(m as int) =~= p@);
                return Some(out);
            }
        } else {
            assert(!is_named_part(p@)) by {
                if p@.len() == 1 && p@[0] == '.' {
                    assert(p@ =~= seq!['.']);
                }
            }
            assert(pre.drop_last() =~= views(parts@).take(k - 1));
            k = k - 1;
        }
    }
    None
}

/// `i` is the position of the last `.` in `n`.
pub open spec fn is_last_dot(n: Seq<char>, i: int) -> bool {
    &&& 0 <= i < n.len()
    &&& n[i] == '.'
    &&& forall|j: int| i < j < n.len() ==> n[j] != '.'
}

/// The extension of a file name as `Path::extension` gives it: what follows
/// its last `.`, unless the name has no `.` or its only one comes first (a
/// hidden file such as `.profile`).
pub open spec fn name_extension(n: Seq<char>) -> Option<Seq<char>> {
    if exists|i: int| 0 < i < n.len() && n[i] == '.' {
        let i = choose|i: int| is_last_dot(n, i);
        Some(n.subrange(i + 1, n.len() as int))
    } else {
        None
    }
}

/// The extension of the path `s` as `Path::extension` gives it with `/` as
/// separator: that of its file name, none where it has no file name.
pub open spec fn extension(s: Seq<char>) -> Option<Seq<char>> {
    match file_name(s) {
        Some(n) => name_extension(n),
        None => None,
    }
}

/// The extension of the path `path`.
pub fn extension_of(path: &str) -> (r: Option<String>)
    ensures
        match r {
            Some(e) => extension(path@) == Some(e@),
            None => extension(path@) is None,
        },
{
    let n = match file_name_chars(&chars_of(path)) {
        Some(n) => n,
        None => return None,
    };
    let len = n.len();
    let mut k = len;
    while k > 0 && n[k - 1] != '.'
        invariant
            k <= len,
            len == n@.len(),
            forall|j: int| k <= j < len ==> n@[j] != '.',
        decreases k,
    {
        k = k - 1;
    }
    if k >= 2 {
        let ghost d = k - 1;
        assert(is_last_dot(n@, d));
        assert(exists|i: int| 0 < i < n@.len() && n@[i] == '.') by {
            assert(0 < d < n@.len() && n@[d] == '.');
        }
        let ghost c = choose|i: int| is_last_dot(n@, i);
        assert(c == d) by {
            assert(is_last_dot(n@, c));
            if c < d {
                assert(n@[d] != '.');
            } else if d < c {
                assert(n@[c] != '.');
            }
        }
        let mut out: Vec<char> = Vec::new();
        for i in k..len
            invariant
                len == n@.len(),
                k <= len,
                out@ == n@.subrange(k as int, i as int),
        {
            out.push(n[i]);
            assert(n@.subrange(k as int, i + 1) =~= n@.subrange(k as int, i as int).push(n@[i as int]));
        }
        Some(string_of(&out))
    } else {
        assert(!exists|i: int| 0 < i < n@.len() && n@[i] == '.') by {
            assert forall|i: int| 0 < i < n@.len() implies n@[i] != '.' by {
                assert(k <= i);
            }
        }
        None
    }
}

/// `c`, or a space where `c` is `-`, `_` or `.`.
pub open spec fn spaced(c: char) -> char {
    if c == '-' || c == '_' || c == '.' {
        ' '
    } else {
        c
    }
}

/// `s` with each `-`, `_` and `.` replaced by a space.
pub open spec fn spaced_name(s: Seq<char>) -> Seq<char> {
    s.map_values(|c: char| spaced(c))
}

pub fn spaced_chars(s: &Vec<char>) -> (r: Vec<char>)
    ensures
        r@ == spaced_name(s@),
{
    let mut out: Vec<char> = Vec::new();
    let n = s.len();
    for i in 0..n
        invariant
            n == s@.len(),
            out@ == spaced_name(s@.take(i as int)),
    {
        let c = s[i];
        let d = if c == '-' || c == '_' || c == '.' {
            ' '
        } else {
            c
        };
        out.push(d);
        assert(spaced_name(s@.take(i + 1)) =~= spaced_name(s@.take(i as int)).push(d));
    }
    assert(s@.take(n as int) =~= s@);
    out
}

pub proof fn lemma_split_from_contains(p: Seq<Seq<char>>, s: Seq<char>, sep: char)
    requires
        p.len() >= 1,
    ensures
        split_from(p, s, sep).len() >= p.len() + (if s.contains(sep) { 1int } else { 0int }),
    decreases s.len(),
{
    if s.len() > 0 {
        lemma_split_from_contains(p, s.drop_last(), sep);
        if s.contains(sep) && s.last() != sep {
            let i = choose|i: int| 0 <= i < s.len() && s[i] == sep;
            assert(i < s.len() - 1);
            assert(s.drop_last()[i] == sep);
        }
    }
}

/// A text that holds `sep` falls into at least two pieces.
pub proof fn lemma_split_on_contains(s: Seq<char>, sep: char)
    ensures
        split_on(s, sep).len() >= 1,
        s.contains(sep) ==> split_on(s, sep).len() >= 2,
{
    lemma_split_from_contains(seq![Seq::empty()], s, sep);
}

/// `a` equals the character sequence `b`.
pub fn same_chars(a: &Vec<char>, b: &[char]) -> (r: bool)
    ensures
        r == (a@ == b@),
{
    if a.len() != b.len() {
        return false;
    }
    let n = a.len();
    for i in 0..n
        invariant
            n == a@.len(),
            n == b@.len(),
            forall|j: int| 0 <= j < i ==> a@[j] == b@[j],
    {
        if a[i] != b[i] {
            return false;
        }
    }
    assert(a@ =~= b@);
    true
}

/// `dst` gains the characters of `src` at its end.
pub fn append_chars(dst: &mut Vec<char>, src: &Vec<char>)
    ensures
        final(dst)@ == old(dst)@ + src@,
{
    let n = src.len();
    for i in 0..n
        invariant
            n == src@.len(),
            dst@ == old(dst)@ + src@.take(i as int),
    {
        dst.push(src[i]);
        assert(src@.take(i + 1) =~= src@.take(i as int).push(src@[i as int]));
        assert(dst@ =~= old(dst)@ + src@.take(i + 1));
    }
    assert(src@.take(n as int) =~= src@);
}

pub proof fn lemma_split_from_concat(p: Seq<Seq<char>>, s: Seq<char>, t: Seq<char>, sep: char)
    ensures
        split_from(p, s + t, sep) == split_from(split_from(p, s, sep), t, sep),
    decreases t.len(),
{
    if t.len() == 0 {
        assert(s + t =~= s);
    } else {
        assert((s + t).drop_last() =~= s + t.drop_last());
        lemma_split_from_concat(p, s, t.drop_last(), sep);
    }
}

pub proof fn lemma_split_from_prefix(pre: Seq<Seq<char>>, q: Seq<Seq<char>>, t: Seq<char>, sep: char)
    requires
        q.len() >= 1,
    ensures
        split_from(pre + q, t, sep) == pre + split_from(q, t, sep),
    decreases t.len(),
{
    if t.len() > 0 {
        lemma_split_from_prefix(pre, q, t.drop_last(), sep);
        lemma_split_from_len(q, t.drop_last(), sep);
        let r = split_from(q, t.drop_last(), sep);
        if t.last() == sep {
            assert((pre + r).push(Seq::empty()) =~= pre + r.push(Seq::empty()));
        } else {
            assert((pre + r).update((pre + r).len() - 1, (pre + r).last().push(t.last())) =~= pre
                + r.update(r.len() - 1, r.last().push(t.last())));
        }
    }
}

/// A text without `sep` is one piece.
pub proof fn lemma_split_on_single(s: Seq<char>, sep: char)
    requires
        !s.contains(sep),
    ensures
        split_on(s, sep) == seq![s],
    decreases s.len(),
{
    if s.len() > 0 {
        assert(!s.drop_last().contains(sep)) by {
            if s.drop_last().contains(sep) {
                let i = choose|i: int| 0 <= i < s.drop_last().len() && s.drop_last()[i] == sep;
                assert(s[i] == sep);
            }
        }
        lemma_split_on_single(s.drop_last(), sep);
        assert(s.last() != sep) by {
            if s.last() == sep {
                assert(s[s.len() - 1] == sep);
            }
        }
        assert(s.drop_last().push(s.last()) =~= s);
        assert(seq![s.drop_last()].update(0, s.drop_last().push(s.last())) =~= seq![s]);
    } else {
        assert(s =~= Seq::<char>::empty());
    }
}

/// Cutting `a`, `sep`, `b` at `sep` gives the pieces of `a` then those of `b`.
pub proof fn lemma_split_on_join(a: Seq<char>, b: Seq<char>, sep: char)
    ensures
        split_on(a + seq![sep] + b, sep) == split_on(a, sep) + split_on(b, sep),
{
    let e: Seq<Seq<char>> = seq![Seq::empty()];
    lemma_split_from_concat(e, a + seq![sep], b, sep);
    lemma_split_from_concat(e, a, seq![sep], sep);
    let pa = split_from(e, a, sep);
    assert(seq![sep].drop_last() =~= Seq::<char>::empty());
    assert(split_from(pa, Seq::<char>::empty(), sep) == pa);
    assert(split_from(pa, seq![sep], sep) == pa.push(Seq::empty()));
    assert(pa.push(Seq::empty()) =~= pa + e);
    lemma_split_from_prefix(pa, e, b, sep);
}

/// No two newlines follow each other in `s`.
pub open spec fn no_blank_line(s: Seq<char>) -> bool {
    forall|i: int| 0 <= i < s.len() - 1 ==> !(#[trigger] s[i] == '\n' && s[i + 1] == '\n')
}

/// `s` is empty or does not end with a newline.
pub open spec fn open_end(s: Seq<char>) -> bool {
    s.len() == 0 || s.last() != '\n'
}

pub proof fn lemma_blocks_from_concat(p: Seq<Seq<char>>, s: Seq<char>, t: Seq<char>)
    ensures
        blocks_from(p, s + t) == blocks_from(blocks_from(p, s), t),
    decreases t.len(),
{
    if t.len() == 0 {
        assert(s + t =~= s);
    } else {
        assert((s + t).drop_last() =~= s + t.drop_last());
        lemma_blocks_from_concat(p, s, t.drop_last());
    }
}

pub proof fn lemma_blocks_from_prefix(pre: Seq<Seq<char>>, q: Seq<Seq<char>>, t: Seq<char>)
    requires
        q.len() >= 1,
    ensures
        blocks_from(pre + q, t) == pre + blocks_from(q, t),
    decreases t.len(),
{
    if t.len() > 0 {
        lemma_blocks_from_prefix(pre, q, t.drop_last());
        lemma_blocks_from_len(q, t.drop_last());
        let r = blocks_from(q, t.drop_last());
        let c = t.last();
        assert((pre + r).last() == r.last());
        if c == '\n' && r.last().len() > 0 && r.last().last() == '\n' {
            assert((pre + r).update((pre + r).len() - 1, (pre + r).last().drop_last()).push(
                Seq::empty(),
            ) =~= pre + r.update(r.len() - 1, r.last().drop_last()).push(Seq::empty()));
        } else {
            assert((pre + r).update((pre + r).len() - 1, (pre + r).last().push(c)) =~= pre
                + r.update(r.len() - 1, r.last().push(c)));
        }
    }
}

/// A text without a blank line is one block.
pub proof fn lemma_blocks_single(s: Seq<char>)
    requires
        no_blank_line(s),
    ensures
        split_blocks(s) == seq![s],
    decreases s.len(),
{
    if s.len() > 0 {
        let t = s.drop_last();
        assert(no_blank_line(t)) by {
            assert forall|i: int| 0 <= i < t.len() - 1 implies !(#[trigger] t[i] == '\n' && t[i + 1]
                == '\n') by {
                assert(t[i] == s[i] && t[i + 1] == s[i + 1]);
            }
        }
        lemma_blocks_single(t);
        if t.len() > 0 {
            assert(t.last() == s[s.len() - 2]);
        }
        assert(t.push(s.last()) =~= s);
        assert(seq![t].update(0, t.push(s.last())) =~= seq![s]);
    } else {
        assert(s =~= Seq::<char>::empty());
    }
}

/// A block, a blank line and more text: the block, then the blocks of the
/// rest.
pub proof fn lemma_blocks_join(a: Seq<char>, b: Seq<char>)
    requires
        no_blank_line(a),
        open_end(a),
    ensures
        split_blocks(a + seq!['\n', '\n'] + b) == seq![a] + split_blocks(b),
{
    let e: Seq<Seq<char>> = seq![Seq::empty()];
    let n2 = seq!['\n', '\n'];
    lemma_blocks_from_concat(e, a + n2, b);
    lemma_blocks_from_concat(e, a, n2);
    lemma_blocks_single(a);
    let pa = seq![a];
    assert(n2.drop_last() =~= seq!['\n']);
    assert(seq!['\n'].drop_last() =~= Seq::<char>::empty());
    assert(blocks_from(pa, Seq::<char>::empty()) == pa);
    assert(blocks_from(pa, seq!['\n']) =~= seq![a.push('\n')]);
    assert(a.push('\n').drop_last() =~= a);
    assert(blocks_from(pa, n2) =~= seq![a] + e);
    lemma_blocks_from_prefix(pa, e, b);
}

/// A line added after a newline keeps a text free of blank lines, when the
/// line is not empty and holds no newline.
pub proof fn lemma_add_line(a: Seq<char>, b: Seq<char>)
    requires
        no_blank_line(a),
        open_end(a),
        b.len() > 0,
        !b.contains('\n'),
    ensures
        no_blank_line(a + seq!['\n'] + b),
        open_end(a + seq!['\n'] + b),
        (a + seq!['\n'] + b).len() > 0,
{
    let s = a + seq!['\n'] + b;
    assert forall|i: int| 0 <= i < s.len() - 1 implies !(#[trigger] s[i] == '\n' && s[i + 1]
        == '\n') by {
        if i < a.len() - 1 {
            assert(s[i] == a[i] && s[i + 1] == a[i + 1]);
        } else if i == a.len() - 1 {
            assert(s[i] == a.last());
        } else if i == a.len() {
            assert(s[i + 1] == b[0]);
        } else {
            assert(s[i] == b[i - a.len() - 1]);
        }
    }
    assert(s.last() == b.last());
    assert(b.last() != '\n') by {
        if b.last() == '\n' {
            assert(b[b.len() - 1] == '\n');
        }
    }
}

/// A line without newlines has no blank line.
pub proof fn lemma_line_alone(b: Seq<char>)
    requires
        !b.contains('\n'),
    ensures
        no_blank_line(b),
        open_end(b),
{
    assert forall|i: int| 0 <= i < b.len() - 1 implies !(#[trigger] b[i] == '\n' && b[i + 1]
        == '\n') by {
        if b[i] == '\n' {
            assert(b.contains('\n'));
        }
    }
    if b.len() > 0 && b.last() == '\n' {
        assert(b[b.len() - 1] == '\n');
    }
}

/// `w` is a word: not empty, and without white space.
pub open spec fn is_word(w: Seq<char>) -> bool {
    w.len() > 0 && forall|j: int| 0 <= j < w.len() ==> !is_ws(#[trigger] w[j])
}

pub proof fn lemma_words_are_words(s: Seq<char>)
    ensures
        forall|i: int| 0 <= i < words(s).len() ==> is_word(#[trigger] words(s)[i]),
    decreases s.len(),
{
    if s.len() > 0 {
        lemma_words_are_words(s.drop_last());
        let w = words(s.drop_last());
        let c = s.last();
        if !is_ws(c) && s.len() > 1 && !is_ws(s[s.len() - 2]) {
            assert(s.drop_last().last() == s[s.len() - 2]);
            lemma_words_nonempty(s.drop_last());
            assert(is_word(w[w.len() - 1]));
            assert(is_word(w.last().push(c)));
        } else if !is_ws(c) {
            assert(is_word(seq![c]));
        }
    }
}

proof fn lemma_words_single(w: Seq<char>)
    requires
        is_word(w),
    ensures
        words(w) == seq![w],
    decreases w.len(),
{
    let c = w.last();
    assert(!is_ws(w[w.len() - 1]));
    if w.len() == 1 {
        assert(w.drop_last() =~= Seq::<char>::empty());
        assert(words(Seq::<char>::empty()) == Seq::<Seq<char>>::empty());
        assert(w =~= seq![c]);
    } else {
        let v = w.drop_last();
        assert(is_word(v)) by {
            assert forall|j: int| 0 <= j < v.len() implies !is_ws(#[trigger] v[j]) by {
                assert(v[j] == w[j]);
            }
        }
        lemma_words_single(v);
        assert(!is_ws(w[w.len() - 2]));
        assert(v.push(c) =~= w);
        assert(seq![v].update(0, v.push(c)) =~= seq![w]);
    }
}

proof fn lemma_words_append(a: Seq<char>, w: Seq<char>)
    requires
        a.len() > 0,
        !is_ws(a.last()),
        is_word(w),
    ensures
        words(a + seq![' '] + w) == words(a).push(w),
    decreases w.len(),
{
    let x = a + seq![' '] + w;
    let c = w.last();
    assert(!is_ws(w[w.len() - 1]));
    assert(x.last() == c);
    if w.len() == 1 {
        let y = a + seq![' '];
        assert(x.drop_last() =~= y);
        assert(y.drop_last() =~= a);
        assert(y.last() == ' ');
        assert(words(y) == words(a));
        assert(x[x.len() - 2] == ' ');
        assert(w =~= seq![c]);
    } else {
        let v = w.drop_last();
        assert(is_word(v)) by {
            assert forall|j: int| 0 <= j < v.len() implies !is_ws(#[trigger] v[j]) by {
                assert(v[j] == w[j]);
            }
        }
        lemma_words_append(a, v);
        assert(x.drop_last() =~= a + seq![' '] + v);
        assert(x[x.len() - 2] == w[w.len() - 2]);
        assert(!is_ws(w[w.len() - 2]));
        assert(v.push(c) =~= w);
        assert(words(a).push(v).update(words(a).len() as int, v.push(c)) =~= words(a).push(w));
    }
}

proof fn lemma_join_ends(ws: Seq<Seq<char>>, sep: Seq<char>)
    requires
        ws.len() > 0,
        forall|i: int| 0 <= i < ws.len() ==> is_word(#[trigger] ws[i]),
    ensures
        join(ws, sep).len() > 0,
        join(ws, sep)[0] == ws[0][0],
        join(ws, sep).last() == ws.last().last(),
    decreases ws.len(),
{
    assert(is_word(ws[0]));
    assert(is_word(ws[ws.len() - 1]));
    if ws.len() > 1 {
        let v = ws.drop_last();
        assert forall|i: int| 0 <= i < v.len() implies is_word(#[trigger] v[i]) by {
            assert(v[i] == ws[i]);
        }
        lemma_join_ends(v, sep);
    }
}

proof fn lemma_words_of_join(ws: Seq<Seq<char>>)
    requires
        forall|i: int| 0 <= i < ws.len() ==> is_word(#[trigger] ws[i]),
    ensures
        words(join(ws, seq![' '])) == ws,
    decreases ws.len(),
{
    if ws.len() == 0 {
        assert(words(Seq::<char>::empty()) =~= ws);
    } else if ws.len() == 1 {
        assert(is_word(ws[0]));
        lemma_words_single(ws[0]);
        assert(seq![ws[0]] =~= ws);
    } else {
        let v = ws.drop_last();
        assert forall|i: int| 0 <= i < v.len() implies is_word(#[trigger] v[i]) by {
            assert(v[i] == ws[i]);
        }
        lemma_words_of_join(v);
        lemma_join_ends(v, seq![' ']);
        assert(is_word(ws[ws.len() - 1]));
        assert(is_word(v[v.len() - 1]));
        lemma_words_append(join(v, seq![' ']), ws.last());
        assert(v.push(ws.last()) =~= ws);
    }
}

/// Collapsing white space twice is collapsing it once.
pub proof fn law_collapse_ws_idempotent(s: Seq<char>)
    ensures
        collapse_ws(collapse_ws(s)) == collapse_ws(s),
{
    lemma_words_are_words(s);
    lemma_words_of_join(words(s));
}

/// Collapsed white space leaves nothing for `trim` to remove.
pub proof fn law_collapse_ws_trimmed(s: Seq<char>)
    ensures
        trim(collapse_ws(s)) == collapse_ws(s),
{
    let c = collapse_ws(s);
    lemma_words_are_words(s);
    if words(s).len() > 0 {
        lemma_join_ends(words(s), seq![' ']);
        let w = words(s);
        assert(is_word(w[0]));
        assert(is_word(w[w.len() - 1]));
        assert(!is_ws(w[0][0]));
        assert(!is_ws(w.last()[w.last().len() - 1]));
        assert(trim_start(c) == c);
        assert(trim_end(c) == c);
    } else {
        assert(c =~= Seq::<char>::empty());
    }
}

} // verus!
