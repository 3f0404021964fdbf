//! The text formats of the files behind a frontier: a list of URLs kept one
//! per line, and the one-line file that names the selected frontier.

use vstd::prelude::*;
use crate::text::{chars_of, push_char};

verus! {

/// The character views of a sequence of strings.
pub open spec fn views(v: Seq<String>) -> Seq<Seq<char>> {
    v.map_values(|s: String| s@)
}

/// A line without the one carriage return that may end it.
pub open spec fn strip_cr(line: Seq<char>) -> Seq<char> {
    if line.len() > 0 && line.last() == '\r' {
        line.drop_last()
    } else {
        line
    }
}

/// One step of reading lines: the non-empty lines finished so far and the
/// line being read, after the character `c`. A newline ends the current
/// line (less a carriage return before it); an empty line is dropped.
pub open spec fn scan_step(state: (Seq<Seq<char>>, Seq<char>), c: char) -> (Seq<Seq<char>>, Seq<char>) {
    if c == '\n' {
        let line = strip_cr(state.1);
        (if line.len() > 0 { state.0.push(line) } else { state.0 }, Seq::empty())
    } else {
        (state.0, state.1.push(c))
    }
}

/// Reading the characters `s` from the state `state` on.
pub open spec fn scan_from(state: (Seq<Seq<char>>, Seq<char>), s: Seq<char>) -> (Seq<Seq<char>>, Seq<char>)
    decreases s.len(),
{
    if s.len() == 0 {
        state
    } else {
        scan_step(scan_from(state, s.drop_last()), s.last())
    }
}

/// The non-empty lines of a text, as `str::lines` splits it (at `\n` or
/// `\r\n`; the last line needs no terminator), with empty lines left out.
pub open spec fn nonempty_lines(s: Seq<char>) -> Seq<Seq<char>> {
    let state = scan_from((Seq::empty(), Seq::empty()), s);
    if state.1.len() > 0 {
        state.0.push(state.1)
    } else {
        state.0
    }
}

/// The lines joined with `\n` between them.
pub open spec fn join_lines(lines: Seq<Seq<char>>) -> Seq<char>
    decreases lines.len(),
{
    if lines.len() == 0 {
        Seq::empty()
    } else if lines.len() == 1 {
        lines[0]
    } else {
        join_lines(lines.drop_last()) + seq!['\n'] + lines.last()
    }
}

/// The text of a URL list: the URLs joined by newlines, with a final
/// newline unless the text is empty.
pub open spec fn render_lines(lines: Seq<Seq<char>>) -> Seq<char> {
    let text = join_lines(lines);
    if text.len() > 0 {
        text.push('\n')
    } else {
        text
    }
}

/// A line that survives a write and a read unchanged: not empty, no
/// newline in it, and no carriage return at its end.
pub open spec fn is_line_safe(line: Seq<char>) -> bool {
    &&& line.len() > 0
    &&& !line.contains('\n')
    &&& line.last() != '\r'
}

/// A string made of the characters `v`.
pub fn string_of(v: &Vec<char>) -> (s: String)
    ensures
        s@ == v@,
{
    let mut s = String::new();
    let mut i: usize = 0;
    while i < v.len()
        invariant
            i <= v.len(),
            s@ == v@.take(i as int),
        decreases v.len() - i,
    {
        push_char(&mut s, v[i]);
        i = i + 1;
        proof {
            assert(s@ =~= v@.take(i as int));
        }
    }
    proof {
        assert(v@.take(v.len() as int) =~= v@);
    }
    s
}

/// The non-empty lines of `content`, in order.
pub fn parse_lines(content: &str) -> (lines: Vec<String>)
    ensures
        views(lines@) == nonempty_lines(content@),
{
    let chars = chars_of(content);
    let mut done: Vec<String> = Vec::new();
    let mut cur: Vec<char> = Vec::new();
    let mut i: usize = 0;
    while i < chars.len()
        invariant
            chars@ == content@,
            i <= chars.len(),
            (views(done@), cur@) == scan_from((Seq::empty(), Seq::empty()), chars@.take(i as int)),
        decreases chars.len() - i,
    {
        let c = chars[i];
        let ghost before = (views(done@), cur@);
        proof {
            assert(chars@.take(i + 1).drop_last() =~= chars@.take(i as int));
        }
        if c == '\n' {
            if cur.len() > 0 && cur[cur.len() - 1] == '\r' {
                cur.pop();
            }
            proof {
                assert(cur@ =~= strip_cr(before.1));
            }
            if cur.len() > 0 {
                let line = string_of(&cur);
                done.push(line);
            }
            cur = Vec::new();
        } else {
            cur.push(c);
        }
        i = i + 1;
        proof {
            assert(views(done@) =~= scan_step(before, c).0);
            assert(cur@ =~= scan_step(before, c).1);
        }
    }
    proof {
        assert(chars@.take(chars.len() as int) =~= chars@);
    }
    if cur.len() > 0 {
        let line = string_of(&cur);
        done.push(line);
    }
    proof {
        assert(views(done@) =~= nonempty_lines(content@));
    }
    done
}

/// The text of a URL list: one per line, each line ended by a newline.
pub fn render_urls(urls: &Vec<String>) -> (text: String)
    ensures
        text@ == render_lines(views(urls@)),
{
    let mut text = String::new();
    let mut i: usize = 0;
    while i < urls.len()
        invariant
            i <= urls.len(),
            text@ == join_lines(views(urls@).take(i as int)),
        decreases urls.len() - i,
    {
        proof {
            assert(views(urls@).take(i + 1).drop_last() =~= views(urls@).take(i as int));
        }
        if i > 0 {
            push_char(&mut text, '\n');
        }
        text.append(urls[i].as_str());
        i = i + 1;
        assert(text@ =~= join_lines(views(urls@).take(i as int)));
    }
    proof {
        assert(views(urls@).take(urls.len() as int) =~= views(urls@));
    }
    if !text.as_str().is_empty() {
        push_char(&mut text, '\n');
    }
    text
}

proof fn lemma_scan_concat(state: (Seq<Seq<char>>, Seq<char>), a: Seq<char>, b: Seq<char>)
    ensures
        scan_from(state, a + b) == scan_from(scan_from(state, a), b),
    decreases b.len(),
{
    if b.len() == 0 {
        assert(a + b =~= a);
    } else {
        lemma_scan_concat(state, a, b.drop_last());
        assert((a + b).drop_last() =~= a + b.drop_last());
    }
}

proof fn lemma_scan_without_newline(state: (Seq<Seq<char>>, Seq<char>), w: Seq<char>)
    requires
        !w.contains('\n'),
    ensures
        scan_from(state, w) == (state.0, state.1 + w),
    decreases w.len(),
{
    if w.len() == 0 {
        assert(state.1 + w =~= state.1);
    } else {
        assert(!w.drop_last().contains('\n')) by {
            if w.drop_last().contains('\n') {
                let k = choose|k: int| 0 <= k < w.drop_last().len() && w.drop_last()[k] == '\n';
                assert(w[k] == '\n');
            }
        }
        assert(w.last() != '\n') by {
            assert(w[w.len() - 1] == w.last());
        }
        lemma_scan_without_newline(state, w.drop_last());
        assert((state.1 + w.drop_last()).push(w.last()) =~= state.1 + w);
    }
}

proof fn lemma_join_nonempty(lines: Seq<Seq<char>>)
    requires
        lines.len() > 0,
        lines[0].len() > 0,
    ensures
        join_lines(lines).len() > 0,
    decreases lines.len(),
{
    if lines.len() > 1 {
        lemma_join_nonempty(lines.drop_last());
    }
}

proof fn lemma_render_push(lines: Seq<Seq<char>>, line: Seq<char>)
    requires
        forall|i: int| 0 <= i < lines.len() ==> (#[trigger] lines[i]).len() > 0,
        line.len() > 0,
    ensures
        render_lines(lines.push(line)) == render_lines(lines) + line.push('\n'),
{
    assert(lines.push(line).drop_last() =~= lines);
    if lines.len() == 0 {
        assert(render_lines(lines) =~= Seq::<char>::empty());
        assert(render_lines(lines) + line.push('\n') =~= line.push('\n'));
    } else {
        lemma_join_nonempty(lines);
        assert(render_lines(lines.push(line)) =~= render_lines(lines) + line.push('\n'));
    }
}

proof fn lemma_scan_rendered(lines: Seq<Seq<char>>)
    requires
        forall|i: int| 0 <= i < lines.len() ==> is_line_safe(#[trigger] lines[i]),
    ensures
        scan_from((Seq::empty(), Seq::empty()), render_lines(lines)) == (lines, Seq::<char>::empty()),
    decreases lines.len(),
{
    let init = (Seq::<Seq<char>>::empty(), Seq::<char>::empty());
    if lines.len() == 0 {
        assert(render_lines(lines) =~= Seq::<char>::empty());
        assert(lines =~= Seq::<Seq<char>>::empty());
    } else {
        let prefix = lines.drop_last();
        let line = lines.last();
        assert(lines =~= prefix.push(line));
        assert forall|i: int| 0 <= i < prefix.len() implies is_line_safe(#[trigger] prefix[i]) by {
            assert(prefix[i] == lines[i]);
        }
        assert(is_line_safe(line)) by {
            assert(lines[lines.len() - 1] == line);
        }
        lemma_scan_rendered(prefix);
        lemma_render_push(prefix, line);
        lemma_scan_concat(init, render_lines(prefix), line.push('\n'));
        lemma_scan_without_newline((prefix, Seq::empty()), line);
        assert(Seq::<char>::empty() + line =~= line);
        assert(line.push('\n').drop_last() =~= line);
    }
}

/// Writing a list of URLs and reading the text back gives the same list,
/// for URLs that are not empty, hold no newline and do not end with a
/// carriage return.
pub proof fn lemma_lines_round_trip(lines: Seq<Seq<char>>)
    requires
        forall|i: int| 0 <= i < lines.len() ==> is_line_safe(#[trigger] lines[i]),
    ensures
        nonempty_lines(render_lines(lines)) == lines,
{
    lemma_scan_rendered(lines);
}

/// Unicode white space (the `White_Space` property), as `char::is_whitespace` tests it.
pub open spec fn is_white_space(c: char) -> bool {
    let n = c as u32;
    ||| 0x09 <= n <= 0x0d
    ||| n == 0x20
    ||| n == 0x85
    ||| n == 0xa0
    ||| n == 0x1680
    ||| 0x2000 <= n <= 0x200a
    ||| n == 0x2028
    ||| n == 0x2029
    ||| n == 0x202f
    ||| n == 0x205f
    ||| n == 0x3000
}

/// The text without the white space at its start.
pub open spec fn trim_start(s: Seq<char>) -> Seq<char>
    decreases s.len(),
{
    if s.len() > 0 && is_white_space(s[0]) {
        trim_start(s.drop_first())
    } else {
        s
    }
}

/// The text without the white space at its end.
pub open spec fn trim_end(s: Seq<char>) -> Seq<char>
    decreases s.len(),
{
    if s.len() > 0 && is_white_space(s.last()) {
        trim_end(s.drop_last())
    } else {
        s
    }
}

/// The text without white space at either end (`str::trim`).
pub open spec fn trim(s: Seq<char>) -> Seq<char> {
    trim_end(trim_start(s))
}

/// Whether `c` is white space (`char::is_whitespace`).
pub fn is_whitespace(c: char) -> (b: bool)
    ensures
        b == is_white_space(c),
{
    let n = c as u32;
    (0x09 <= n && n <= 0x0d) || n == 0x20 || n == 0x85 || n == 0xa0 || n == 0x1680 || (0x2000
        <= n && n <= 0x200a) || n == 0x2028 || n == 0x2029 || n == 0x202f || n == 0x205f || n
        == 0x3000
}

/// `s` without white space at either end.
pub fn trim_string(s: &str) -> (t: String)
    ensures
        t@ == trim(s@),
{
    let v = chars_of(s);
    let n = v.len();
    let mut i: usize = 0;
    assert(s@.skip(0) =~= s@);
    while i < n && is_whitespace(v[i])
        invariant
            v@ == s@,
            n == v.len(),
            i <= n,
            trim_start(s@) == trim_start(s@.skip(i as int)),
        decreases n - i,
    {
        assert(s@.skip(i as int).drop_first() =~= s@.skip(i + 1));
        i = i + 1;
    }
    assert(trim_start(s@) == s@.skip(i as int)) by {
        if i < n {
            assert(s@.skip(i as int)[0] == v@[i as int]);
        }
    }
    let mut j: usize = n;
    while j > i && is_whitespace(v[j - 1])
        invariant
            v@ == s@,
            n == v.len(),
            i <= j <= n,
            trim(s@) == trim_end(s@.subrange(i as int, j as int)),
        decreases j,
    {
        assert(s@.subrange(i as int, j as int).drop_last() =~= s@.subrange(i as int, j - 1));
        j = j - 1;
    }
    assert(trim(s@) == s@.subrange(i as int, j as int)) by {
        if j > i {
            assert(s@.subrange(i as int, j as int).last() == v@[j - 1]);
        }
    }
    assert(s@.skip(i as int) =~= s@.subrange(i as int, n as int));
    let mut out: Vec<char> = Vec::new();
    let mut k: usize = i;
    while k < j
        invariant
            v@ == s@,
            i <= k <= j <= n,
            n == v.len(),
            out@ == s@.subrange(i as int, k as int),
        decreases j - k,
    {
        out.push(v[k]);
        k = k + 1;
        assert(out@ =~= s@.subrange(i as int, k as int));
    }
    string_of(&out)
}

} // verus!
