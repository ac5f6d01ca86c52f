//! Byte-level scanning for the DSL lexer: character classes, word and
//! number runs, comment skipping. Every executable scanner is proved to
//! compute the same position as its specification twin.

use vstd::prelude::*;

verus! {

// --- character classes ---

pub open spec fn is_space_b(b: u8) -> bool {
    b == 32 || b == 9 || b == 10 || b == 13
}

pub open spec fn is_digit_b(b: u8) -> bool {
    48 <= b && b <= 57
}

pub open spec fn is_alpha_b(b: u8) -> bool {
    (65 <= b && b <= 90) || (97 <= b && b <= 122)
}

/// A byte that may start an identifier or keyword.
pub open spec fn is_word_start_b(b: u8) -> bool {
    is_alpha_b(b) || b == 95
}

/// A byte that may continue an identifier or keyword.
pub open spec fn is_word_b(b: u8) -> bool {
    is_alpha_b(b) || is_digit_b(b) || b == 95
}

pub fn is_space(b: u8) -> (r: bool)
    ensures
        r == is_space_b(b),
{
    b == 32 || b == 9 || b == 10 || b == 13
}

pub fn is_digit(b: u8) -> (r: bool)
    ensures
        r == is_digit_b(b),
{
    48 <= b && b <= 57
}

pub fn is_word_start(b: u8) -> (r: bool)
    ensures
        r == is_word_start_b(b),
{
    (65 <= b && b <= 90) || (97 <= b && b <= 122) || b == 95
}

pub fn is_word(b: u8) -> (r: bool)
    ensures
        r == is_word_b(b),
{
    (65 <= b && b <= 90) || (97 <= b && b <= 122) || (48 <= b && b <= 57) || b == 95
}

// --- maximal runs ---

/// End of the maximal run of word bytes starting at `pos`.
pub open spec fn word_end(s: Seq<u8>, pos: int) -> int
    decreases s.len() - pos,
{
    if pos < s.len() && is_word_b(s[pos]) {
        word_end(s, pos + 1)
    } else {
        pos
    }
}

/// End of the maximal run of digit bytes starting at `pos`.
pub open spec fn digits_end(s: Seq<u8>, pos: int) -> int
    decreases s.len() - pos,
{
    if pos < s.len() && is_digit_b(s[pos]) {
        digits_end(s, pos + 1)
    } else {
        pos
    }
}

/// First position at or after `pos` holding a newline, or the input's end.
pub open spec fn line_end(s: Seq<u8>, pos: int) -> int
    decreases s.len() - pos,
{
    if pos < s.len() && s[pos] != 10 {
        line_end(s, pos + 1)
    } else {
        pos
    }
}

/// Position just after the first `*/` found at or after `pos`, if any.
pub open spec fn block_close(s: Seq<u8>, pos: int) -> Option<int>
    decreases s.len() - pos,
{
    if pos + 1 < s.len() {
        if s[pos] == 42 && s[pos + 1] == 47 {
            Some(pos + 2)
        } else {
            block_close(s, pos + 1)
        }
    } else {
        None
    }
}

pub proof fn lemma_word_end(s: Seq<u8>, pos: int)
    requires
        0 <= pos <= s.len(),
    ensures
        pos <= word_end(s, pos) <= s.len(),
    decreases s.len() - pos,
{
    if pos < s.len() && is_word_b(s[pos]) {
        lemma_word_end(s, pos + 1);
    }
}

pub proof fn lemma_digits_end(s: Seq<u8>, pos: int)
    requires
        0 <= pos <= s.len(),
    ensures
        pos <= digits_end(s, pos) <= s.len(),
    decreases s.len() - pos,
{
    if pos < s.len() && is_digit_b(s[pos]) {
        lemma_digits_end(s, pos + 1);
    }
}

/// Position just after the closing quote of a string literal whose body
/// starts at `pos`, if the literal is closed before a newline or the
/// input's end.
pub open spec fn str_close(s: Seq<u8>, pos: int) -> Option<int>
    decreases s.len() - pos,
{
    if pos < s.len() {
        if s[pos] == 34 {
            Some(pos + 1)
        } else if s[pos] == 10 {
            None
        } else {
            str_close(s, pos + 1)
        }
    } else {
        None
    }
}

// --- trivia: whitespace and comments between tokens ---

/// End of the trivia run (spaces, line comments, terminated block
/// comments) starting at `pos`. An unterminated block comment is not
/// trivia: the run stops in front of its `/*`.
pub open spec fn trivia_end(s: Seq<u8>, pos: int) -> int
    decreases s.len() - pos,
{
    if pos < s.len() && is_space_b(s[pos]) {
        trivia_end(s, pos + 1)
    } else if pos + 1 < s.len() && s[pos] == 47 && s[pos + 1] == 47 {
        let q = line_end(s, pos + 2);
        if pos < q <= s.len() {
            trivia_end(s, q)
        } else {
            pos
        }
    } else if pos + 1 < s.len() && s[pos] == 47 && s[pos + 1] == 42 {
        match block_close(s, pos + 2) {
            Some(q) => if pos < q <= s.len() {
                trivia_end(s, q)
            } else {
                pos
            },
            None => pos,
        }
    } else {
        pos
    }
}

// --- clamped advances ---
//
// The same positions, clamped so that `pos <= adv_*(s, pos) <= s.len()`
// holds by definition; the grammar's termination rests on that shape.
// For positions inside the input the clamp never fires — every scan
// below returns a position in range — so each equals its unclamped twin
// wherever the engine applies it.

pub open spec fn adv_word(s: Seq<u8>, pos: int) -> int {
    let e = word_end(s, pos);
    if pos <= e <= s.len() {
        e
    } else {
        pos
    }
}

pub open spec fn adv_digits(s: Seq<u8>, pos: int) -> int {
    let e = digits_end(s, pos);
    if pos <= e <= s.len() {
        e
    } else {
        pos
    }
}

pub open spec fn adv_trivia(s: Seq<u8>, pos: int) -> int {
    let e = trivia_end(s, pos);
    if pos <= e <= s.len() {
        e
    } else {
        pos
    }
}

// --- executable scanners ---

pub fn scan_word_end(s: &[u8], pos: usize) -> (r: usize)
    requires
        pos <= s@.len(),
    ensures
        r as int == word_end(s@, pos as int),
        pos <= r <= s@.len(),
{
    let mut cur: usize = pos;
    while cur < s.len() && is_word(s[cur])
        invariant
            pos <= cur <= s@.len(),
            word_end(s@, pos as int) == word_end(s@, cur as int),
        decreases s@.len() - cur,
    {
        cur = cur + 1;
    }
    cur
}

pub fn scan_digits_end(s: &[u8], pos: usize) -> (r: usize)
    requires
        pos <= s@.len(),
    ensures
        r as int == digits_end(s@, pos as int),
        pos <= r <= s@.len(),
{
    let mut cur: usize = pos;
    while cur < s.len() && is_digit(s[cur])
        invariant
            pos <= cur <= s@.len(),
            digits_end(s@, pos as int) == digits_end(s@, cur as int),
        decreases s@.len() - cur,
    {
        cur = cur + 1;
    }
    cur
}

pub fn scan_line_end(s: &[u8], pos: usize) -> (r: usize)
    requires
        pos <= s@.len(),
    ensures
        r as int == line_end(s@, pos as int),
        pos <= r <= s@.len(),
{
    let mut cur: usize = pos;
    while cur < s.len() && s[cur] != 10
        invariant
            pos <= cur <= s@.len(),
            line_end(s@, pos as int) == line_end(s@, cur as int),
        decreases s@.len() - cur,
    {
        cur = cur + 1;
    }
    cur
}

pub fn scan_block_close(s: &[u8], pos: usize) -> (r: Option<usize>)
    requires
        pos <= s@.len(),
    ensures
        match r {
            Some(q) => block_close(s@, pos as int) == Some(q as int) && pos < q <= s@.len(),
            None => block_close(s@, pos as int) is None,
        },
{
    let mut cur: usize = pos;
    loop
        invariant
            pos <= cur <= s@.len(),
            block_close(s@, pos as int) == block_close(s@, cur as int),
        decreases s@.len() - cur,
    {
        if cur < s.len() && cur + 1 < s.len() {
            if s[cur] == 42 && s[cur + 1] == 47 {
                return Some(cur + 2);
            }
            cur = cur + 1;
        } else {
            return None;
        }
    }
}

pub fn scan_str_close(s: &[u8], pos: usize) -> (r: Option<usize>)
    requires
        pos <= s@.len(),
    ensures
        match r {
            Some(q) => str_close(s@, pos as int) == Some(q as int) && pos < q <= s@.len(),
            None => str_close(s@, pos as int) is None,
        },
{
    let mut cur: usize = pos;
    loop
        invariant
            pos <= cur <= s@.len(),
            str_close(s@, pos as int) == str_close(s@, cur as int),
        decreases s@.len() - cur,
    {
        if cur < s.len() {
            if s[cur] == 34 {
                return Some(cur + 1);
            } else if s[cur] == 10 {
                return None;
            }
            cur = cur + 1;
        } else {
            return None;
        }
    }
}

pub fn scan_trivia_end(s: &[u8], pos: usize) -> (r: usize)
    requires
        pos <= s@.len(),
    ensures
        r as int == trivia_end(s@, pos as int),
        pos <= r <= s@.len(),
{
    let mut cur: usize = pos;
    loop
        invariant
            pos <= cur <= s@.len(),
            trivia_end(s@, pos as int) == trivia_end(s@, cur as int),
        decreases s@.len() - cur,
    {
        if cur < s.len() && is_space(s[cur]) {
            cur = cur + 1;
        } else if cur < s.len() && s[cur] == 47 && cur + 1 < s.len() && s[cur + 1] == 47 {
            let q = scan_line_end(s, cur + 2);
            cur = q;
        } else if cur < s.len() && s[cur] == 47 && cur + 1 < s.len() && s[cur + 1] == 42 {
            match scan_block_close(s, cur + 2) {
                Some(q) => {
                    cur = q;
                },
                None => {
                    return cur;
                },
            }
        } else {
            return cur;
        }
    }
}

} // verus!
