//! The draft editor: a text with a cursor counted in characters.
use vstd::prelude::*;

use crate::text::{from_chars, is_ws, to_chars, trim};

verus! {

/// The text being edited and the cursor, a character index into it.
pub ghost struct InputView {
    pub text: Seq<char>,
    pub cursor: nat,
}

/// `text` with `s` put at character index `i`.
pub open spec fn splice(text: Seq<char>, i: int, j: int, s: Seq<char>) -> Seq<char> {
    text.take(i) + s + text.skip(j)
}

/// Number of newlines in `s`.
pub open spec fn newlines(s: Seq<char>) -> nat
    decreases s.len(),
{
    if s.len() == 0 {
        0
    } else {
        newlines(s.drop_last()) + if s.last() == '\n' {
            1nat
        } else {
            0nat
        }
    }
}

/// One past the last newline before index `c`, or 0.
pub open spec fn line_start(text: Seq<char>, c: int) -> nat
    decreases c,
{
    if c <= 0 {
        0
    } else if text[c - 1] == '\n' {
        c as nat
    } else {
        line_start(text, c - 1)
    }
}

/// The first newline at or after index `c`, or the length of `text`.
pub open spec fn line_end(text: Seq<char>, c: int) -> nat
    decreases text.len() - c,
{
    if c >= text.len() {
        text.len()
    } else if text[c] == '\n' {
        c as nat
    } else {
        line_end(text, c + 1)
    }
}

/// Start of the run of non-white-space characters that ends at `c`.
pub open spec fn token_start(text: Seq<char>, c: int) -> nat
    decreases c,
{
    if c <= 0 {
        0
    } else if is_ws(text[c - 1]) {
        c as nat
    } else {
        token_start(text, c - 1)
    }
}

/// End of the run of non-white-space characters that starts at `c`.
pub open spec fn token_end(text: Seq<char>, c: int) -> nat
    decreases text.len() - c,
{
    if c >= text.len() {
        text.len()
    } else if is_ws(text[c]) {
        c as nat
    } else {
        token_end(text, c + 1)
    }
}

pub open spec fn insert_char_spec(v: InputView, ch: char) -> InputView {
    InputView { text: splice(v.text, v.cursor as int, v.cursor as int, seq![ch]), cursor: v.cursor + 1 }
}

pub open spec fn insert_str_spec(v: InputView, s: Seq<char>) -> InputView {
    if s.len() == 0 {
        v
    } else {
        InputView { text: splice(v.text, v.cursor as int, v.cursor as int, s), cursor: v.cursor + s.len() }
    }
}

pub open spec fn backspace_spec(v: InputView) -> InputView {
    if v.cursor == 0 {
        v
    } else {
        InputView {
            text: splice(v.text, v.cursor - 1, v.cursor as int, Seq::empty()),
            cursor: (v.cursor - 1) as nat,
        }
    }
}

pub open spec fn delete_spec(v: InputView) -> InputView {
    if v.cursor >= v.text.len() {
        v
    } else {
        InputView { text: splice(v.text, v.cursor as int, (v.cursor + 1) as int, Seq::empty()), cursor: v.cursor }
    }
}

pub open spec fn move_left_spec(v: InputView) -> InputView {
    InputView {
        text: v.text,
        cursor: if v.cursor == 0 {
            0
        } else {
            (v.cursor - 1) as nat
        },
    }
}

pub open spec fn move_right_spec(v: InputView) -> InputView {
    InputView {
        text: v.text,
        cursor: if v.cursor + 1 <= v.text.len() {
            v.cursor + 1
        } else {
            v.text.len()
        },
    }
}

/// The range `[start, end)`, clamped to the text, replaced by `s`.
pub open spec fn replace_range_spec(v: InputView, start: nat, end: nat, s: Seq<char>) -> InputView {
    let a = if start <= v.text.len() {
        start
    } else {
        v.text.len()
    };
    let b0 = if end <= v.text.len() {
        end
    } else {
        v.text.len()
    };
    let b = if b0 >= a {
        b0
    } else {
        a
    };
    InputView { text: splice(v.text, a as int, b as int, s), cursor: a + s.len() }
}

/// A draft and its cursor.
#[derive(Debug)]
pub struct InputBuffer {
    text: String,
    cursor: usize,
}

impl View for InputBuffer {
    type V = InputView;

    closed spec fn view(&self) -> InputView {
        InputView { text: self.text@, cursor: self.cursor as nat }
    }
}

impl InputBuffer {
    #[verifier::type_invariant]
    spec fn cursor_in_text(self) -> bool {
        self.cursor <= self.text@.len()
    }

    pub fn new() -> (r: InputBuffer)
        ensures
            r@ == (InputView { text: Seq::empty(), cursor: 0 }),
    {
        InputBuffer { text: String::new(), cursor: 0 }
    }

    /// A buffer holding `text` with the cursor at its end.
    pub fn from(text: &str) -> (r: InputBuffer)
        ensures
            r@ == (InputView { text: text@, cursor: text@.len() }),
    {
        let chars = to_chars(text);
        InputBuffer { text: from_chars(&chars), cursor: chars.len() }
    }

    pub fn as_str(&self) -> (r: &str)
        ensures
            r@ == self@.text,
    {
        self.text.as_str()
    }

    pub fn is_empty(&self) -> (r: bool)
        ensures
            r == (self@.text.len() == 0),
    {
        self.char_len() == 0
    }

    pub fn clear(&mut self)
        ensures
            final(self)@ == (InputView { text: Seq::empty(), cursor: 0 }),
    {
        *self = InputBuffer::new();
    }

    pub fn set_text(&mut self, text: &str)
        ensures
            final(self)@ == (InputView { text: text@, cursor: text@.len() }),
    {
        *self = InputBuffer::from(text);
    }

    /// The text without leading and trailing white space.
    pub fn trim(&self) -> (r: &str)
        ensures
            r@ == trim(self@.text),
    {
        crate::text::str_trim(self.text.as_str())
    }

    /// Length of the text in characters.
    pub fn char_len(&self) -> (r: usize)
        ensures
            r == self@.text.len(),
    {
        let chars = to_chars(self.text.as_str());
        chars.len()
    }

    pub fn insert_char(&mut self, ch: char)
        requires
            old(self)@.text.len() < usize::MAX,
        ensures
            final(self)@ == insert_char_spec(old(self)@, ch),
    {
        proof {
            use_type_invariant(&*self);
        }
        let mut one: Vec<char> = Vec::new();
        one.push(ch);
        let chars = to_chars(self.text.as_str());
        let edited = splice_chars(&chars, self.cursor, self.cursor, &one);
        let cursor = self.cursor + 1;
        *self = InputBuffer { text: from_chars(&edited), cursor };
    }

    pub fn insert_str(&mut self, text: &str)
        requires
            old(self)@.text.len() + text@.len() <= usize::MAX,
        ensures
            final(self)@ == insert_str_spec(old(self)@, text@),
    {
        proof {
            use_type_invariant(&*self);
        }
        let added = to_chars(text);
        if added.len() == 0 {
            return;
        }
        let chars = to_chars(self.text.as_str());
        let edited = splice_chars(&chars, self.cursor, self.cursor, &added);
        let cursor = self.cursor + added.len();
        *self = InputBuffer { text: from_chars(&edited), cursor };
    }

    pub fn backspace(&mut self)
        ensures
            final(self)@ == backspace_spec(old(self)@),
    {
        proof {
            use_type_invariant(&*self);
        }
        if self.cursor == 0 {
            return;
        }
        let chars = to_chars(self.text.as_str());
        let none: Vec<char> = Vec::new();
        let edited = splice_chars(&chars, self.cursor - 1, self.cursor, &none);
        let cursor = self.cursor - 1;
        *self = InputBuffer { text: from_chars(&edited), cursor };
    }

    pub fn delete(&mut self)
        ensures
            final(self)@ == delete_spec(old(self)@),
    {
        proof {
            use_type_invariant(&*self);
        }
        let chars = to_chars(self.text.as_str());
        if self.cursor >= chars.len() {
            return;
        }
        let none: Vec<char> = Vec::new();
        let edited = splice_chars(&chars, self.cursor, self.cursor + 1, &none);
        let cursor = self.cursor;
        *self = InputBuffer { text: from_chars(&edited), cursor };
    }

    pub fn move_left(&mut self)
        ensures
            final(self)@ == move_left_spec(old(self)@),
    {
        proof {
            use_type_invariant(&*self);
        }
        let cursor = if self.cursor == 0 {
            0
        } else {
            self.cursor - 1
        };
        self.cursor = cursor;
    }

    pub fn move_right(&mut self)
        ensures
            final(self)@ == move_right_spec(old(self)@),
    {
        proof {
            use_type_invariant(&*self);
        }
        let len = self.char_len();
        let cursor = if self.cursor < len {
            self.cursor + 1
        } else {
            len
        };
        self.cursor = cursor;
    }

    pub fn move_to_line_start(&mut self)
        ensures
            final(self)@ == (InputView {
                text: old(self)@.text,
                cursor: line_start(old(self)@.text, old(self)@.cursor as int),
            }),
            final(self)@.cursor == 0 || final(self)@.text[final(self)@.cursor - 1] == '\n',
            forall|k: int|
                final(self)@.cursor <= k < old(self)@.cursor ==> final(self)@.text[k] != '\n',
    {
        let start = self.current_line_start();
        proof {
            use_type_invariant(&*self);
            law_line_start_stops_after_newline_or_at_zero(self@.text, self@.cursor as int);
        }
        self.cursor = start;
    }

    pub fn move_to_line_end(&mut self)
        ensures
            final(self)@ == (InputView {
                text: old(self)@.text,
                cursor: line_end(old(self)@.text, old(self)@.cursor as int),
            }),
            final(self)@.cursor == final(self)@.text.len()
                || final(self)@.text[final(self)@.cursor as int] == '\n',
            forall|k: int|
                old(self)@.cursor <= k < final(self)@.cursor ==> final(self)@.text[k] != '\n',
    {
        let end = self.current_line_end();
        proof {
            law_line_end_stops_at_newline_or_end(self@.text, self@.cursor as int);
        }
        self.cursor = end;
    }

    /// Replaces the characters `start..end`, each clamped to the text, with
    /// `replacement`, and puts the cursor after it.
    pub fn replace_char_range(&mut self, start: usize, end: usize, replacement: &str)
        requires
            old(self)@.text.len() + replacement@.len() <= usize::MAX,
        ensures
            final(self)@ == replace_range_spec(old(self)@, start as nat, end as nat, replacement@),
    {
        let chars = to_chars(self.text.as_str());
        let len = chars.len();
        let a = if start <= len {
            start
        } else {
            len
        };
        let b0 = if end <= len {
            end
        } else {
            len
        };
        let b = if b0 >= a {
            b0
        } else {
            a
        };
        let added = to_chars(replacement);
        let edited = splice_chars(&chars, a, b, &added);
        let cursor = a + added.len();
        *self = InputBuffer { text: from_chars(&edited), cursor };
    }

    /// The bounds of the run of non-white-space characters around the cursor.
    pub fn current_token_bounds(&self) -> (r: (usize, usize))
        ensures
            r.0 == token_start(self@.text, self@.cursor as int),
            r.1 == token_end(self@.text, self@.cursor as int),
    {
        proof {
            use_type_invariant(self);
        }
        let chars = to_chars(self.text.as_str());
        let mut start = self.cursor;
        while start > 0 && !crate::text::is_whitespace(chars[start - 1])
            invariant
                chars@ == self@.text,
                start <= self.cursor <= chars@.len(),
                token_start(chars@, self.cursor as int) == token_start(chars@, start as int),
            decreases start,
        {
            start -= 1;
        }
        let mut end = self.cursor;
        while end < chars.len() && !crate::text::is_whitespace(chars[end])
            invariant
                chars@ == self@.text,
                self.cursor <= end <= chars@.len(),
                token_end(chars@, self.cursor as int) == token_end(chars@, end as int),
            decreases chars@.len() - end,
        {
            end += 1;
        }
        (start, end)
    }

    /// One more than the number of newlines.
    pub fn line_count(&self) -> (r: usize)
        requires
            self@.text.len() < usize::MAX,
        ensures
            r == newlines(self@.text) + 1,
    {
        let chars = to_chars(self.text.as_str());
        let n = count_newlines(&chars, chars.len());
        assert(chars@.take(chars@.len() as int) == chars@);
        n + 1
    }

    /// The cursor's line (newlines before it) and column (characters after
    /// the line start).
    pub fn cursor_line_col(&self) -> (r: (usize, usize))
        ensures
            r.0 == newlines(self@.text.take(self@.cursor as int)),
            r.1 == self@.cursor - line_start(self@.text, self@.cursor as int),
    {
        proof {
            use_type_invariant(self);
        }
        let start = self.current_line_start();
        let chars = to_chars(self.text.as_str());
        let line = count_newlines(&chars, self.cursor);
        proof {
            lemma_line_start_le(chars@, self.cursor as int);
        }
        (line, self.cursor - start)
    }

    fn current_line_start(&self) -> (r: usize)
        ensures
            r == line_start(self@.text, self@.cursor as int),
            r <= self@.cursor,
    {
        proof {
            use_type_invariant(self);
        }
        let chars = to_chars(self.text.as_str());
        let mut i = self.cursor;
        while i > 0 && chars[i - 1] != '\n'
            invariant
                chars@ == self@.text,
                i <= self.cursor <= chars@.len(),
                line_start(chars@, self.cursor as int) == line_start(chars@, i as int),
            decreases i,
        {
            i -= 1;
        }
        i
    }

    fn current_line_end(&self) -> (r: usize)
        ensures
            r == line_end(self@.text, self@.cursor as int),
            self@.cursor <= r <= self@.text.len(),
    {
        proof {
            use_type_invariant(self);
        }
        let chars = to_chars(self.text.as_str());
        let mut i = self.cursor;
        while i < chars.len() && chars[i] != '\n'
            invariant
                chars@ == self@.text,
                self.cursor <= i <= chars@.len(),
                line_end(chars@, self.cursor as int) == line_end(chars@, i as int),
            decreases chars@.len() - i,
        {
            i += 1;
        }
        i
    }
}

proof fn lemma_line_start_le(text: Seq<char>, c: int)
    requires
        0 <= c,
    ensures
        line_start(text, c) <= c,
    decreases c,
{
    if c > 0 && text[c - 1] != '\n' {
        lemma_line_start_le(text, c - 1);
    }
}

/// `v[..i] + s + v[j..]`.
fn splice_chars(v: &Vec<char>, i: usize, j: usize, s: &Vec<char>) -> (r: Vec<char>)
    requires
        i <= j <= v@.len(),
    ensures
        r@ == splice(v@, i as int, j as int, s@),
{
    let mut r: Vec<char> = Vec::new();
    let mut k: usize = 0;
    while k < i
        invariant
            k <= i <= j <= v@.len(),
            r@ == v@.take(k as int),
        decreases i - k,
    {
        r.push(v[k]);
        k += 1;
        assert(v@.take(k as int) == v@.take(k - 1).push(v@[k - 1]));
    }
    let mut k: usize = 0;
    while k < s.len()
        invariant
            k <= s@.len(),
            r@ == v@.take(i as int) + s@.take(k as int),
        decreases s@.len() - k,
    {
        r.push(s[k]);
        k += 1;
        assert(s@.take(k as int) == s@.take(k - 1).push(s@[k - 1]));
    }
    assert(s@.take(s@.len() as int) == s@);
    let mut k: usize = j;
    while k < v.len()
        invariant
            j <= k <= v@.len(),
            r@ == v@.take(i as int) + s@ + v@.subrange(j as int, k as int),
        decreases v@.len() - k,
    {
        r.push(v[k]);
        k += 1;
        assert(v@.subrange(j as int, k as int) == v@.subrange(j as int, k - 1).push(v@[k - 1]));
    }
    assert(v@.subrange(j as int, v@.len() as int) == v@.skip(j as int));
    r
}

/// Number of newlines among the first `n` characters of `v`.
pub(crate) fn count_newlines(v: &Vec<char>, n: usize) -> (r: usize)
    requires
        n <= v@.len(),
    ensures
        r == newlines(v@.take(n as int)),
        r <= n,
{
    let mut count: usize = 0;
    let mut i: usize = 0;
    while i < n
        invariant
            i <= n <= v@.len(),
            count == newlines(v@.take(i as int)),
            count <= i,
        decreases n - i,
    {
        assert(v@.take(i + 1).drop_last() == v@.take(i as int));
        if v[i] == '\n' {
            count += 1;
        }
        i += 1;
    }
    count
}

impl Clone for InputBuffer {
    fn clone(&self) -> (r: InputBuffer)
        ensures
            r@ == self@,
    {
        proof {
            use_type_invariant(self);
        }
        InputBuffer { text: self.text.clone(), cursor: self.cursor }
    }
}

impl Default for InputBuffer {
    fn default() -> (r: InputBuffer)
        ensures
            r@ == (InputView { text: Seq::empty(), cursor: 0 }),
    {
        InputBuffer::new()
    }
}

/// Backspace undoes the insertion of a character.
pub proof fn law_backspace_undoes_insert_char(v: InputView, ch: char)
    requires
        v.cursor <= v.text.len(),
    ensures
        backspace_spec(insert_char_spec(v, ch)) == v,
{
    let w = insert_char_spec(v, ch);
    assert(splice(w.text, v.cursor as int, (v.cursor + 1) as int, Seq::empty()) =~= v.text);
}

/// Moving left and deleting removes the same character as backspace.
pub proof fn law_delete_after_move_left_is_backspace(v: InputView)
    requires
        v.cursor <= v.text.len(),
        v.cursor > 0,
    ensures
        delete_spec(move_left_spec(v)) == backspace_spec(v),
{
}

/// Replacing the empty range at the cursor inserts at the cursor.
pub proof fn law_replace_empty_range_is_insert(v: InputView, s: Seq<char>)
    requires
        v.cursor <= v.text.len(),
        s.len() > 0,
    ensures
        replace_range_spec(v, v.cursor, v.cursor, s) == insert_str_spec(v, s),
{
}

/// Inserting a string grows the text by its length and keeps the cursor
/// inside the text.
pub proof fn law_insert_str_length(v: InputView, s: Seq<char>)
    requires
        v.cursor <= v.text.len(),
    ensures
        insert_str_spec(v, s).text.len() == v.text.len() + s.len(),
        insert_str_spec(v, s).cursor <= insert_str_spec(v, s).text.len(),
        insert_str_spec(v, s).text.take(v.cursor as int) == v.text.take(v.cursor as int),
{
    if s.len() > 0 {
        assert(insert_str_spec(v, s).text.take(v.cursor as int) =~= v.text.take(v.cursor as int));
    }
}


/// Moving to the end of the line stops on the first newline at or after the
/// cursor, or at the end of the text when there is none: the cursor does not
/// move backwards, no newline lies between the old and the new cursor, and the
/// new cursor is at the end of the text or on a newline.
pub proof fn law_line_end_stops_at_newline_or_end(text: Seq<char>, c: int)
    requires
        0 <= c <= text.len(),
    ensures
        c <= line_end(text, c) <= text.len(),
        line_end(text, c) == text.len() || text[line_end(text, c) as int] == '\n',
        forall|k: int| c <= k < line_end(text, c) ==> text[k] != '\n',
    decreases text.len() - c,
{
    if c < text.len() && text[c] != '\n' {
        law_line_end_stops_at_newline_or_end(text, c + 1);
    }
}

/// Moving to the start of the line stops just after the last newline before
/// the cursor, or at 0 when there is none: the cursor does not move forwards,
/// no newline lies between the new and the old cursor, and the new cursor is
/// 0 or just after a newline.
pub proof fn law_line_start_stops_after_newline_or_at_zero(text: Seq<char>, c: int)
    requires
        0 <= c <= text.len(),
    ensures
        line_start(text, c) <= c,
        line_start(text, c) == 0 || text[line_start(text, c) - 1] == '\n',
        forall|k: int| line_start(text, c) <= k < c ==> text[k] != '\n',
    decreases c,
{
    if c > 0 && text[c - 1] != '\n' {
        law_line_start_stops_after_newline_or_at_zero(text, c - 1);
    }
}

} // verus!
