//! The version of `rustc`, as `major.minor`, read from what
//! `rustc --version` prints.
use vstd::prelude::*;
use crate::text::{is_whitespace, is_whitespace_char, chars_of, substring, append_str, to_owned_string};
use crate::typename::{split_all, split_str, lemma_split_all_len};

verus! {

/// The length of the run of non-whitespace characters that starts at `i`.
pub open spec fn word_end(s: Seq<char>, i: int) -> int
    decreases s.len() - i,
{
    if i < 0 || i >= s.len() || is_whitespace(s[i]) {
        i
    } else {
        word_end(s, i + 1)
    }
}

/// `str::split_whitespace`: the runs of non-whitespace characters of `s`
/// from index `i` on.
pub open spec fn words_from(s: Seq<char>, i: int) -> Seq<Seq<char>>
    decreases s.len() - i, 1int,
{
    if i < 0 || i >= s.len() {
        Seq::empty()
    } else if is_whitespace(s[i]) {
        words_from(s, i + 1)
    } else {
        let e = word_end(s, i);
        proof {
            lemma_word_end(s, i);
        }
        seq![s.subrange(i, e)] + words_from(s, e)
    }
}

pub proof fn lemma_word_end(s: Seq<char>, i: int)
    requires
        0 <= i < s.len(),
        !is_whitespace(s[i]),
    ensures
        i < word_end(s, i) <= s.len(),
    decreases s.len() - i,
{
    assert(word_end(s, i) == word_end(s, i + 1));
    if i + 1 < s.len() && !is_whitespace(s[i + 1]) {
        lemma_word_end(s, i + 1);
    } else {
        assert(word_end(s, i + 1) == i + 1);
    }
}

/// The version that a line `rustc X.Y.Z (...)` gives: `X.Y`, from the
/// second word of the line, cut at its dots.
pub open spec fn rustc_version_of(line: Seq<char>) -> Seq<char> {
    let parts = split_all(words_from(line, 0)[1], "."@);
    parts[0] + "."@ + parts[1]
}

/// The line can be read: it has a second word with at least three parts
/// separated by dots.
pub open spec fn readable_version_line(line: Seq<char>) -> bool {
    words_from(line, 0).len() >= 2 && split_all(words_from(line, 0)[1], "."@).len() > 2
}

/// The second run of non-whitespace characters of `s`, if there is one.
fn second_word(s: &str) -> (r: Option<&str>)
    ensures
        match r {
            Some(w) => words_from(s@, 0).len() >= 2 && w@ == words_from(s@, 0)[1],
            None => words_from(s@, 0).len() < 2,
        },
{
    let cs = chars_of(s);
    let n = cs.len();
    let mut i: usize = 0;
    let mut count: usize = 0;
    while i < n
        invariant
            i <= n,
            n == s@.len(),
            cs@ == s@,
            count <= 1,
            words_from(s@, 0).len() >= 2 <==> words_from(s@, i as int).len() + count >= 2,
            words_from(s@, 0).len() >= 2 ==> (count == 1 ==> words_from(s@, 0)[1] == words_from(
                s@,
                i as int,
            )[0]) && (count == 0 ==> words_from(s@, 0)[1] == words_from(s@, i as int)[1]),
        decreases n - i,
    {
        if is_whitespace_char(cs[i]) {
            i = i + 1;
        } else {
            let mut e = i;
            while e < n && !is_whitespace_char(cs[e])
                invariant
                    i <= e <= n,
                    n == s@.len(),
                    cs@ == s@,
                    word_end(s@, i as int) == word_end(s@, e as int),
                decreases n - e,
            {
                e = e + 1;
            }
            proof {
                lemma_word_end(s@, i as int);
            }
            if count == 1 {
                return Some(substring(s, i, e));
            }
            count = count + 1;
            i = e;
        }
    }
    None
}

/// The `major.minor` version of a line that `rustc --version` prints.
pub fn parse_rustc_version(line: &str) -> (r: String)
    requires
        readable_version_line(line@),
    ensures
        r@ == rustc_version_of(line@),
{
    let full_version = match second_word(line) {
        Some(w) => w,
        None => {
            assert(false);
            line
        },
    };
    proof {
        reveal_strlit(".");
    }
    let parts = split_str(full_version, ".");
    let mut s = to_owned_string(parts[0]);
    append_str(&mut s, ".");
    append_str(&mut s, parts[1]);
    s
}


/// Whether `parse_rustc_version` can read the line.
pub fn is_readable_version_line(line: &str) -> (r: bool)
    ensures
        r == readable_version_line(line@),
{
    match second_word(line) {
        Some(w) => {
            proof {
                reveal_strlit(".");
            }
            let parts = split_str(w, ".");
            parts.len() > 2
        },
        None => false,
    }
}

} // verus!
