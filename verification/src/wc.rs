//! Line, word, byte and character counting over a file's lines.

use vstd::prelude::*;
use vstd::string::StringSliceAdditionalSpecFns;
use vstd::string::StrSliceExecFns;
use vstd::utf8::encode_utf8;

verus! {

/// Counts for one file, or the running totals over several.
#[derive(Clone, Copy, PartialEq, Eq, Structural, Debug)]
pub struct WcResult {
    pub lines: usize,
    pub words: usize,
    pub bytes: usize,
    pub chars: usize,
    pub longest_line: usize,
}

impl WcResult {
    /// An all-zero count.
    pub fn new() -> (r: WcResult)
        ensures
            r.lines == 0 && r.words == 0 && r.bytes == 0 && r.chars == 0 && r.longest_line == 0,
    {
        WcResult { lines: 0, words: 0, bytes: 0, chars: 0, longest_line: 0 }
    }

    /// Fold another file's counts into this one: sums everywhere, the
    /// maximum for the longest line.
    pub fn add(&mut self, other: &WcResult)
        requires
            old(self).lines + other.lines <= usize::MAX,
            old(self).words + other.words <= usize::MAX,
            old(self).bytes + other.bytes <= usize::MAX,
            old(self).chars + other.chars <= usize::MAX,
        ensures
            final(self).lines == old(self).lines + other.lines,
            final(self).words == old(self).words + other.words,
            final(self).bytes == old(self).bytes + other.bytes,
            final(self).chars == old(self).chars + other.chars,
            final(self).longest_line == if old(self).longest_line >= other.longest_line {
                old(self).longest_line
            } else {
                other.longest_line
            },
    {
        self.lines = self.lines + other.lines;
        self.words = self.words + other.words;
        self.bytes = self.bytes + other.bytes;
        self.chars = self.chars + other.chars;
        if other.longest_line > self.longest_line {
            self.longest_line = other.longest_line;
        }
    }
}

/// ASCII whitespace, as word separators.
pub open spec fn is_wsb(b: u8) -> bool {
    b == 0x20 || b == 0x09 || b == 0x0a || b == 0x0b || b == 0x0c || b == 0x0d
}

/// Number of words after the given position, given whether the previous
/// byte was whitespace: a word starts at each non-whitespace byte that
/// follows whitespace.
pub open spec fn words_from(s: Seq<u8>, prev_ws: bool) -> nat
    decreases s.len(),
{
    if s.len() == 0 {
        0
    } else {
        ((if prev_ws && !is_wsb(s.first()) {
            1nat
        } else {
            0nat
        }) + words_from(s.drop_first(), is_wsb(s.first()))) as nat
    }
}

/// Number of whitespace-separated words in a byte sequence.
pub open spec fn word_count(s: Seq<u8>) -> nat {
    words_from(s, true)
}

/// Bytes of a line's UTF-8 form.
pub open spec fn line_bytes(s: String) -> nat {
    encode_utf8(s@).len()
}

/// Total words over the lines.
pub open spec fn total_words(ls: Seq<String>) -> nat
    decreases ls.len(),
{
    if ls.len() == 0 {
        0
    } else {
        total_words(ls.drop_last()) + word_count(encode_utf8(ls.last()@))
    }
}

/// Total bytes over the lines, one newline per line included.
pub open spec fn total_bytes(ls: Seq<String>) -> nat
    decreases ls.len(),
{
    if ls.len() == 0 {
        0
    } else {
        total_bytes(ls.drop_last()) + line_bytes(ls.last()) + 1
    }
}

/// Total characters over the lines, one newline per line included.
pub open spec fn total_chars(ls: Seq<String>) -> nat
    decreases ls.len(),
{
    if ls.len() == 0 {
        0
    } else {
        total_chars(ls.drop_last()) + ls.last()@.len() + 1
    }
}

/// Length of the longest line, in bytes or in characters.
pub open spec fn longest_line_len(ls: Seq<String>, use_chars: bool) -> nat
    decreases ls.len(),
{
    if ls.len() == 0 {
        0
    } else {
        let l: nat = if use_chars {
            ls.last()@.len()
        } else {
            line_bytes(ls.last())
        };
        let rest = longest_line_len(ls.drop_last(), use_chars);
        if rest >= l {
            rest
        } else {
            l
        }
    }
}

/// A prefix's totals never exceed the whole sequence's.
proof fn lemma_totals_prefix(ls: Seq<String>, i: int)
    requires
        0 <= i <= ls.len(),
    ensures
        total_words(ls.take(i)) <= total_words(ls),
        total_bytes(ls.take(i)) <= total_bytes(ls),
        total_chars(ls.take(i)) <= total_chars(ls),
    decreases ls.len() - i,
{
    if i < ls.len() {
        lemma_totals_prefix(ls, i + 1);
        assert(ls.take(i + 1).drop_last() =~= ls.take(i));
        assert(ls.take(i + 1).last() == ls[i]);
    } else {
        assert(ls.take(i) =~= ls);
    }
}

/// Count the words of one line.
fn count_line_words(s: &[u8]) -> (r: usize)
    ensures
        r == word_count(s@),
{
    let n = s.len();
    let mut cnt: usize = 0;
    let mut prev_ws = true;
    let mut j: usize = 0;
    proof {
        assert(s@.skip(0) =~= s@);
    }
    while j < n
        invariant
            j <= n == s@.len(),
            cnt <= j,
            word_count(s@) == cnt + words_from(s@.skip(j as int), prev_ws),
        decreases n - j,
    {
        let b = s[j];
        let ws = b == 0x20 || b == 0x09 || b == 0x0a || b == 0x0b || b == 0x0c || b == 0x0d;
        proof {
            let tail = s@.skip(j as int);
            assert(tail.first() == s@[j as int]);
            assert(tail.drop_first() =~= s@.skip(j as int + 1));
        }
        if prev_ws && !ws {
            cnt += 1;
        }
        prev_ws = ws;
        j += 1;
    }
    proof {
        assert(s@.skip(n as int) =~= Seq::<u8>::empty());
    }
    cnt
}

/// Count the requested statistics over a file's lines. A disabled count
/// stays zero; the newline ending each line is counted with it, as the
/// line-splitting reader consumed it.
pub fn count_stats(
    lines: &Vec<String>,
    count_bytes: bool,
    count_lines: bool,
    count_chars: bool,
    count_words: bool,
    count_longest_line: bool,
    use_chars_for_longest: bool,
) -> (r: WcResult)
    requires
        total_words(lines@) <= usize::MAX,
        total_bytes(lines@) <= usize::MAX,
        total_chars(lines@) <= usize::MAX,
    ensures
        r.lines == if count_lines || count_longest_line {
            lines@.len() as int
        } else {
            0
        },
        r.words == if count_words {
            total_words(lines@) as int
        } else {
            0
        },
        r.bytes == if count_bytes {
            total_bytes(lines@) as int
        } else {
            0
        },
        r.chars == if count_chars || use_chars_for_longest {
            total_chars(lines@) as int
        } else {
            0
        },
        r.longest_line == if count_longest_line {
            longest_line_len(lines@, use_chars_for_longest) as int
        } else {
            0
        },
{
    let mut res = WcResult::new();
    let mut i: usize = 0;
    proof {
        assert(lines@.take(0) =~= Seq::<String>::empty());
    }
    while i < lines.len()
        invariant
            i <= lines@.len(),
            total_words(lines@) <= usize::MAX,
            total_bytes(lines@) <= usize::MAX,
            total_chars(lines@) <= usize::MAX,
            res.lines == if count_lines || count_longest_line {
                i as int
            } else {
                0
            },
            res.words == if count_words {
                total_words(lines@.take(i as int)) as int
            } else {
                0
            },
            res.bytes == if count_bytes {
                total_bytes(lines@.take(i as int)) as int
            } else {
                0
            },
            res.chars == if count_chars || use_chars_for_longest {
                total_chars(lines@.take(i as int)) as int
            } else {
                0
            },
            res.longest_line == if count_longest_line {
                longest_line_len(lines@.take(i as int), use_chars_for_longest) as int
            } else {
                0
            },
        decreases lines@.len() - i,
    {
        let line = &lines[i];
        proof {
            lemma_totals_prefix(lines@, i + 1);
            assert(lines@.take(i + 1).drop_last() =~= lines@.take(i as int));
            assert(lines@.take(i + 1).last() == lines@[i as int]);
        }
        if count_lines || count_longest_line {
            res.lines += 1;
        }
        if count_words {
            let w = count_line_words(line.as_str().as_bytes());
            res.words += w;
        }
        if count_bytes {
            res.bytes += line.as_str().len() + 1;
        }
        if count_chars || use_chars_for_longest {
            res.chars += line.as_str().unicode_len() + 1;
        }
        if count_longest_line {
            let len = if use_chars_for_longest {
                line.as_str().unicode_len()
            } else {
                line.as_str().len()
            };
            if len > res.longest_line {
                res.longest_line = len;
            }
        }
        i += 1;
    }
    proof {
        assert(lines@.take(lines@.len() as int) =~= lines@);
    }
    res
}

} // verus!
