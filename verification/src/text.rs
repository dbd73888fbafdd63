//! The tokenizer: splits a metadata block into lines, and a line into its
//! keyword and the value after the `=`.

use vstd::prelude::*;
use vstd::string::*;

verus! {

/// Whether `b` is blank space: a space, or one of the control characters
/// from tab (9) to carriage return (13).
pub open spec fn is_space(b: u8) -> bool {
    b == 32 || (9 <= b && b <= 13)
}

/// The lines of `s` that are still to come when the scan stands at `i` and
/// the line being read began at `start`. A line feed (byte 10) ends a line
/// and is not part of it; text after the last line feed is a line if it is
/// not empty.
pub open spec fn lines_from(s: Seq<u8>, start: int, i: int) -> Seq<Seq<u8>>
    decreases s.len() - i,
{
    if i < 0 || i >= s.len() {
        if 0 <= start < s.len() {
            seq![s.subrange(start, s.len() as int)]
        } else {
            Seq::empty()
        }
    } else if s[i] == 10 {
        seq![s.subrange(start, i)] + lines_from(s, i + 1, i + 1)
    } else {
        lines_from(s, start, i + 1)
    }
}

/// The lines of a text block, in order.
pub open spec fn lines_of(s: Seq<u8>) -> Seq<Seq<u8>> {
    lines_from(s, 0, 0)
}

/// What a vector of lines holds, line by line.
pub open spec fn line_views(lines: Seq<Vec<u8>>) -> Seq<Seq<u8>> {
    Seq::new(lines.len(), |i: int| lines[i]@)
}

/// The first position at or after `i` that holds no blank space.
pub open spec fn skip_spaces(s: Seq<u8>, i: int) -> int
    decreases s.len() - i,
{
    if 0 <= i < s.len() && is_space(s[i]) {
        skip_spaces(s, i + 1)
    } else {
        i
    }
}

/// The first position at or after `i` that holds blank space, or the end.
pub open spec fn skip_word(s: Seq<u8>, i: int) -> int
    decreases s.len() - i,
{
    if 0 <= i < s.len() && !is_space(s[i]) {
        skip_word(s, i + 1)
    } else {
        i
    }
}

/// The end of `s[lo..hi]` once the blank space at its end is taken off.
pub open spec fn trim_end(s: Seq<u8>, lo: int, hi: int) -> int
    decreases hi - lo,
{
    if lo < hi <= s.len() && is_space(s[hi - 1]) {
        trim_end(s, lo, hi - 1)
    } else {
        hi
    }
}

/// Where the keyword and the value of a line stand. The keyword is the
/// first word. The value is what follows a second word `=`, without the
/// blank space around it; it is empty where the second word is not `=` or
/// nothing follows.
pub struct LineParts {
    pub key_start: usize,
    pub key_end: usize,
    pub value_start: usize,
    pub value_end: usize,
}

/// The start of a line's keyword.
pub open spec fn key_start_of(s: Seq<u8>) -> int {
    skip_spaces(s, 0)
}

/// The end of a line's keyword.
pub open spec fn key_end_of(s: Seq<u8>) -> int {
    skip_word(s, key_start_of(s))
}

/// Whether the second word of the line is a lone `=` (byte 61).
pub open spec fn has_equals(s: Seq<u8>) -> bool {
    let c = skip_spaces(s, key_end_of(s));
    c < s.len() && s[c] == 61 && skip_word(s, c) == c + 1
}

/// The start of a line's value.
pub open spec fn value_start_of(s: Seq<u8>) -> int {
    if has_equals(s) {
        skip_spaces(s, skip_spaces(s, key_end_of(s)) + 1)
    } else {
        s.len() as int
    }
}

/// The end of a line's value.
pub open spec fn value_end_of(s: Seq<u8>) -> int {
    trim_end(s, value_start_of(s), s.len() as int)
}

/// The keyword of a line; empty for a blank line.
pub open spec fn key_of(s: Seq<u8>) -> Seq<u8> {
    s.subrange(key_start_of(s), key_end_of(s))
}

/// The value of a line; empty where it has none.
pub open spec fn value_of(s: Seq<u8>) -> Seq<u8> {
    s.subrange(value_start_of(s), value_end_of(s))
}

/// The bytes of an ASCII word.
pub open spec fn word_bytes(word: Seq<char>) -> Seq<u8> {
    Seq::new(word.len(), |i: int| word[i] as u8)
}

/// Whether `bytes` is the ASCII word `word`.
pub open spec fn spells(bytes: Seq<u8>, word: Seq<char>) -> bool {
    bytes == word_bytes(word)
}

/// What the first word of a line announces.
#[derive(Debug, Clone, Copy, PartialEq, Eq, Structural)]
pub enum Keyword {
    /// The line is empty or all blank space.
    Blank,
    /// `#` or `Description`: a line that carries no field.
    Comment,
    Version,
    Width,
    Height,
    State,
    Dirs,
    Frames,
    Delay,
    Movement,
    /// Any other word.
    Other,
}

/// The keyword that `key` spells.
pub open spec fn keyword_of(key: Seq<u8>) -> Keyword {
    if key.len() == 0 {
        Keyword::Blank
    } else if spells(key, "#"@) || spells(key, "Description"@) {
        Keyword::Comment
    } else if spells(key, "version"@) {
        Keyword::Version
    } else if spells(key, "width"@) {
        Keyword::Width
    } else if spells(key, "height"@) {
        Keyword::Height
    } else if spells(key, "state"@) {
        Keyword::State
    } else if spells(key, "dirs"@) {
        Keyword::Dirs
    } else if spells(key, "frames"@) {
        Keyword::Frames
    } else if spells(key, "delay"@) {
        Keyword::Delay
    } else if spells(key, "movement"@) {
        Keyword::Movement
    } else {
        Keyword::Other
    }
}

/// The keyword of a line.
pub open spec fn line_keyword(s: Seq<u8>) -> Keyword {
    keyword_of(key_of(s))
}

/// Splits a text block into its lines.
pub fn split_lines(text: &[u8]) -> (r: Vec<Vec<u8>>)
    ensures
        line_views(r@) == lines_of(text@),
{
    let n: usize = text.len();
    let mut out: Vec<Vec<u8>> = Vec::new();
    let mut cur: Vec<u8> = Vec::new();
    let mut i: usize = 0;
    let ghost mut start: int = 0;
    while i < n
        invariant
            n == text@.len(),
            0 <= start <= i <= n,
            cur@ == text@.subrange(start, i as int),
            lines_of(text@) == line_views(out@) + lines_from(text@, start, i as int),
        decreases n - i,
    {
        let b: u8 = text[i];
        if b == 10 {
            proof {
                let before = line_views(out@);
                let rest = lines_from(text@, i + 1, i + 1);
                assert(lines_from(text@, start, i as int) == seq![cur@] + rest);
                assert(before + (seq![cur@] + rest) =~= before.push(cur@) + rest);
                start = i + 1;
            }
            let ghost head = line_views(out@);
            let ghost line = cur@;
            out.push(cur);
            cur = Vec::new();
            proof {
                assert(line_views(out@) =~= head.push(line));
                assert(cur@ =~= text@.subrange(start, i + 1));
            }
        } else {
            cur.push(b);
            proof {
                assert(cur@ =~= text@.subrange(start, i + 1));
            }
        }
        i = i + 1;
    }
    if cur.len() > 0 {
        let ghost head = line_views(out@);
        let ghost line = cur@;
        out.push(cur);
        proof {
            assert(line_views(out@) =~= head.push(line));
            assert(head.push(line) =~= head + seq![line]);
        }
    } else {
        proof {
            assert(start == n);
            assert(line_views(out@) + Seq::<Seq<u8>>::empty() =~= line_views(out@));
        }
    }
    out
}

/// Finds the keyword and the value of a line.
pub fn split_line(line: &[u8]) -> (r: LineParts)
    ensures
        r.key_start == key_start_of(line@),
        r.key_end == key_end_of(line@),
        r.value_start == value_start_of(line@),
        r.value_end == value_end_of(line@),
        r.key_start <= r.key_end <= r.value_start <= r.value_end <= line@.len(),
{
    let n: usize = line.len();
    let a = past_spaces(line, 0);
    let b = past_word(line, a);
    let c = past_spaces(line, b);
    if c < n && line[c] == 61 && past_word(line, c) == c + 1 {
        let e = past_spaces(line, c + 1);
        let mut f: usize = n;
        while e < f && blank(line[f - 1])
            invariant
                e <= f <= n,
                n == line@.len(),
                trim_end(line@, e as int, n as int) == trim_end(line@, e as int, f as int),
            decreases f - e,
        {
            f = f - 1;
        }
        LineParts { key_start: a, key_end: b, value_start: e, value_end: f }
    } else {
        LineParts { key_start: a, key_end: b, value_start: n, value_end: n }
    }
}

/// Copies `s[lo..hi]` into a vector of its own.
pub fn copy_range(s: &[u8], lo: usize, hi: usize) -> (r: Vec<u8>)
    requires
        lo <= hi <= s@.len(),
    ensures
        r@ == s@.subrange(lo as int, hi as int),
{
    let mut out: Vec<u8> = Vec::new();
    let mut i: usize = lo;
    while i < hi
        invariant
            lo <= i <= hi <= s@.len(),
            out@ == s@.subrange(lo as int, i as int),
        decreases hi - i,
    {
        out.push(s[i]);
        proof {
            assert(out@ =~= s@.subrange(lo as int, i + 1));
        }
        i = i + 1;
    }
    out
}

/// Tells whether a byte is blank space.
pub fn blank(b: u8) -> (r: bool)
    ensures
        r == is_space(b),
{
    b == 32 || (9 <= b && b <= 13)
}

/// Moves from `i` past any blank space.
pub fn past_spaces(s: &[u8], i: usize) -> (r: usize)
    requires
        i <= s@.len(),
    ensures
        r == skip_spaces(s@, i as int),
        i <= r <= s@.len(),
{
    let mut j: usize = i;
    while j < s.len() && blank(s[j])
        invariant
            i <= j <= s@.len(),
            skip_spaces(s@, i as int) == skip_spaces(s@, j as int),
        decreases s@.len() - j,
    {
        j = j + 1;
    }
    j
}

/// Moves from `i` to the end of the word that stands there.
pub fn past_word(s: &[u8], i: usize) -> (r: usize)
    requires
        i <= s@.len(),
    ensures
        r == skip_word(s@, i as int),
        i <= r <= s@.len(),
{
    let mut j: usize = i;
    while j < s.len() && !blank(s[j])
        invariant
            i <= j <= s@.len(),
            skip_word(s@, i as int) == skip_word(s@, j as int),
        decreases s@.len() - j,
    {
        j = j + 1;
    }
    j
}

/// Tells whether `s[lo..hi]` is the ASCII word `word`.
pub fn is_word(s: &[u8], lo: usize, hi: usize, word: &str) -> (r: bool)
    requires
        lo <= hi <= s@.len(),
        is_ascii(word),
    ensures
        r == spells(s@.subrange(lo as int, hi as int), word@),
{
    broadcast use is_ascii_spec_bytes;

    let w = word.as_bytes();
    let ghost want = word_bytes(word@);
    assert(w@ =~= want);
    if hi - lo != w.len() {
        return false;
    }
    let mut k: usize = 0;
    while k < w.len()
        invariant
            lo <= hi <= s@.len(),
            hi - lo == w@.len(),
            w@ == want,
            want == word_bytes(word@),
            k <= w@.len(),
            forall|j: int| 0 <= j < k ==> s@[lo + j] == w@[j],
        decreases w@.len() - k,
    {
        if s[lo + k] != w[k] {
            assert(s@.subrange(lo as int, hi as int)[k as int] != want[k as int]);
            return false;
        }
        k = k + 1;
    }
    assert(s@.subrange(lo as int, hi as int) =~= want);
    true
}

/// Reads the keyword that stands in `s[lo..hi]`.
pub fn classify(s: &[u8], lo: usize, hi: usize) -> (r: Keyword)
    requires
        lo <= hi <= s@.len(),
    ensures
        r == keyword_of(s@.subrange(lo as int, hi as int)),
{
    proof {
        reveal_strlit("#");
        reveal_strlit("Description");
        reveal_strlit("version");
        reveal_strlit("width");
        reveal_strlit("height");
        reveal_strlit("state");
        reveal_strlit("dirs");
        reveal_strlit("frames");
        reveal_strlit("delay");
        reveal_strlit("movement");
    }
    if hi == lo {
        Keyword::Blank
    } else if is_word(s, lo, hi, "#") || is_word(s, lo, hi, "Description") {
        Keyword::Comment
    } else if is_word(s, lo, hi, "version") {
        Keyword::Version
    } else if is_word(s, lo, hi, "width") {
        Keyword::Width
    } else if is_word(s, lo, hi, "height") {
        Keyword::Height
    } else if is_word(s, lo, hi, "state") {
        Keyword::State
    } else if is_word(s, lo, hi, "dirs") {
        Keyword::Dirs
    } else if is_word(s, lo, hi, "frames") {
        Keyword::Frames
    } else if is_word(s, lo, hi, "delay") {
        Keyword::Delay
    } else if is_word(s, lo, hi, "movement") {
        Keyword::Movement
    } else {
        Keyword::Other
    }
}

} // verus!
