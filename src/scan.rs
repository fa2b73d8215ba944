use vstd::prelude::*;

verus! {

/// Space, tab and newline separate words; nothing else does.
pub open spec fn is_ws(c: char) -> bool {
    c == ' ' || c == '\t' || c == '\n'
}

/// The first index at or after `i` that holds `stop`, or the length of `s`.
pub open spec fn find_stop(s: Seq<char>, i: int, stop: char) -> int
    decreases s.len() - i,
{
    if i >= s.len() {
        s.len() as int
    } else if s[i] == stop {
        i
    } else {
        find_stop(s, i + 1, stop)
    }
}

/// The first index at or after `i` that holds whitespace, or the length of `s`.
pub open spec fn find_ws(s: Seq<char>, i: int) -> int
    decreases s.len() - i,
{
    if i >= s.len() {
        s.len() as int
    } else if is_ws(s[i]) {
        i
    } else {
        find_ws(s, i + 1)
    }
}

/// The first index at or after `i` that holds no whitespace, or the length of `s`.
pub open spec fn skip_ws(s: Seq<char>, i: int) -> int
    decreases s.len() - i,
{
    if i >= s.len() {
        s.len() as int
    } else if is_ws(s[i]) {
        skip_ws(s, i + 1)
    } else {
        i
    }
}

/// A scan for a stop character ends within the text, not before its start.
pub proof fn lemma_find_stop_bounds(s: Seq<char>, i: int, stop: char)
    requires
        0 <= i <= s.len(),
    ensures
        i <= find_stop(s, i, stop) <= s.len(),
    decreases s.len() - i,
{
    if i < s.len() && s[i] != stop {
        lemma_find_stop_bounds(s, i + 1, stop);
    }
}

/// A scan for whitespace ends within the text, not before its start.
pub proof fn lemma_find_ws_bounds(s: Seq<char>, i: int)
    requires
        0 <= i <= s.len(),
    ensures
        i <= find_ws(s, i) <= s.len(),
    decreases s.len() - i,
{
    if i < s.len() && !is_ws(s[i]) {
        lemma_find_ws_bounds(s, i + 1);
    }
}

/// Skipping whitespace ends within the text, not before its start.
pub proof fn lemma_skip_ws_bounds(s: Seq<char>, i: int)
    requires
        0 <= i <= s.len(),
    ensures
        i <= skip_ws(s, i) <= s.len(),
    decreases s.len() - i,
{
    if i < s.len() && is_ws(s[i]) {
        lemma_skip_ws_bounds(s, i + 1);
    }
}

/// A cursor over the characters of a source text. The cursor only moves forward.
pub struct Scanner {
    chars: Vec<char>,
    pos: usize,
}

impl Scanner {
    /// The characters being scanned.
    pub closed spec fn text(&self) -> Seq<char> {
        self.chars@
    }

    /// The index of the next character to be read.
    pub closed spec fn cursor(&self) -> int {
        self.pos as int
    }

    /// The cursor lies within the text, or just past its end.
    pub open spec fn wf(&self) -> bool {
        0 <= self.cursor() <= self.text().len() <= usize::MAX
    }

    /// A scanner at the start of `source`.
    pub fn new(source: &str) -> (r: Scanner)
        ensures
            r.wf(),
            r.text() == source@,
            r.cursor() == 0,
    {
        let chars = chars_of(source);
        assert(chars@.len() == chars.len());
        Scanner { chars, pos: 0 }
    }

    /// The index of the next character to be read.
    pub fn position(&self) -> (r: usize)
        ensures
            r == self.cursor(),
    {
        self.pos
    }

    /// Whether every character has been read.
    pub fn at_end(&self) -> (r: bool)
        requires
            self.wf(),
        ensures
            r == (self.cursor() >= self.text().len()),
    {
        self.pos >= self.chars.len()
    }
    /// The character under the cursor, if any.
    pub fn peek(&self) -> (r: Option<char>)
        requires
            self.wf(),
        ensures
            self.cursor() < self.text().len() ==> r == Some(self.text()[self.cursor()]),
            self.cursor() >= self.text().len() ==> r is None,
    {
        if self.pos < self.chars.len() {
            Some(self.chars[self.pos])
        } else {
            None
        }
    }

    /// Moves past one character; does nothing at the end of the text.
    pub fn advance(&mut self)
        requires
            old(self).wf(),
        ensures
            final(self).wf(),
            final(self).text() == old(self).text(),
            final(self).cursor() == if old(self).cursor() < old(self).text().len() {
                old(self).cursor() + 1
            } else {
                old(self).cursor()
            },
    {
        if self.pos < self.chars.len() {
            self.pos = self.pos + 1;
        }
    }

    /// Reads up to, not including, the next `stop`, or to the end of the text.
    pub fn scan_until(&mut self, stop: char) -> (r: Vec<char>)
        requires
            old(self).wf(),
        ensures
            final(self).wf(),
            final(self).text() == old(self).text(),
            final(self).cursor() == find_stop(old(self).text(), old(self).cursor(), stop),
            r@ == old(self).text().subrange(old(self).cursor(), final(self).cursor()),
    {
        let start = self.pos;
        let mut r: Vec<char> = Vec::new();
        while self.pos < self.chars.len() && self.chars[self.pos] != stop
            invariant
                start <= self.pos <= self.chars.len(),
                self.chars@ == old(self).chars@,
                start == old(self).pos,
                find_stop(self.chars@, start as int, stop) == find_stop(
                    self.chars@,
                    self.pos as int,
                    stop,
                ),
                r@ == self.chars@.subrange(start as int, self.pos as int),
            decreases self.chars.len() - self.pos,
        {
            r.push(self.chars[self.pos]);
            self.pos = self.pos + 1;
            assert(r@ =~= self.chars@.subrange(start as int, self.pos as int));
        }
        r
    }

    /// Reads up to, not including, the next whitespace, or to the end of the text.
    pub fn scan_until_whitespace(&mut self) -> (r: Vec<char>)
        requires
            old(self).wf(),
        ensures
            final(self).wf(),
            final(self).text() == old(self).text(),
            final(self).cursor() == find_ws(old(self).text(), old(self).cursor()),
            r@ == old(self).text().subrange(old(self).cursor(), final(self).cursor()),
    {
        let start = self.pos;
        let mut r: Vec<char> = Vec::new();
        while self.pos < self.chars.len() && !is_ws_char(self.chars[self.pos])
            invariant
                start <= self.pos <= self.chars.len(),
                self.chars@ == old(self).chars@,
                start == old(self).pos,
                find_ws(self.chars@, start as int) == find_ws(self.chars@, self.pos as int),
                r@ == self.chars@.subrange(start as int, self.pos as int),
            decreases self.chars.len() - self.pos,
        {
            r.push(self.chars[self.pos]);
            self.pos = self.pos + 1;
            assert(r@ =~= self.chars@.subrange(start as int, self.pos as int));
        }
        r
    }

    /// Moves past any run of whitespace.
    pub fn skip_whitespace(&mut self)
        requires
            old(self).wf(),
        ensures
            final(self).wf(),
            final(self).text() == old(self).text(),
            final(self).cursor() == skip_ws(old(self).text(), old(self).cursor()),
    {
        while self.pos < self.chars.len() && is_ws_char(self.chars[self.pos])
            invariant
                old(self).pos <= self.pos <= self.chars.len(),
                self.chars@ == old(self).chars@,
                skip_ws(self.chars@, old(self).pos as int) == skip_ws(
                    self.chars@,
                    self.pos as int,
                ),
            decreases self.chars.len() - self.pos,
        {
            self.pos = self.pos + 1;
        }
    }
}

/// The characters of `s`, in order.
pub fn chars_of(s: &str) -> (r: Vec<char>)
    ensures
        r@ == s@,
{
    let mut r: Vec<char> = Vec::new();
    for c in it: s.chars()
        invariant
            r@ == it.seq().take(it.index() as int),
    {
        r.push(c);
    }
    assert(r@ =~= s@);
    r
}

/// Whether the characters of `t` spell exactly `w`.
pub fn is_word(t: &Vec<char>, w: &str) -> (r: bool)
    ensures
        r == (t@ == w@),
{
    let n = w.unicode_len();
    if t.len() != n {
        return false;
    }
    let mut i: usize = 0;
    while i < n
        invariant
            i <= n,
            n == w@.len(),
            t.len() == n,
            forall|k: int| 0 <= k < i ==> t@[k] == w@[k],
        decreases n - i,
    {
        if t[i] != w.get_char(i) {
            return false;
        }
        i = i + 1;
    }
    assert(t@ =~= w@);
    true
}

/// Whether `c` separates words.
pub fn is_ws_char(c: char) -> (r: bool)
    ensures
        r == is_ws(c),
{
    c == ' ' || c == '\t' || c == '\n'
}

} // verus!
