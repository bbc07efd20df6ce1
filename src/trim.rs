//! Dropping the leading blanks of a statement and rejecting blank statements.

use vstd::prelude::*;

verus! {

/// Space or tab: what separates words.
pub open spec fn is_blank(c: char) -> bool {
    c == ' ' || c == '\t'
}

/// Blank, carriage return or line feed.
pub open spec fn is_white(c: char) -> bool {
    is_blank(c) || c == '\r' || c == '\n'
}

/// `s` without its leading spaces and tabs.
pub open spec fn skip_blanks(s: Seq<char>) -> Seq<char>
    decreases s.len(),
{
    if s.len() > 0 && is_blank(s[0]) {
        skip_blanks(s.drop_first())
    } else {
        s
    }
}

pub open spec fn has_content(s: Seq<char>) -> bool {
    exists|j: int| 0 <= j < s.len() && !is_white(#[trigger] s[j])
}

/// The statement that is worth parsing, if any.
pub open spec fn trimmed(s: Seq<char>) -> Option<Seq<char>> {
    if has_content(skip_blanks(s)) {
        Some(skip_blanks(s))
    } else {
        None
    }
}

proof fn lemma_skip_blanks_suffix(s: Seq<char>, k: int)
    requires
        0 <= k <= s.len(),
        forall|j: int| 0 <= j < k ==> is_blank(#[trigger] s[j]),
    ensures
        skip_blanks(s) == skip_blanks(s.subrange(k, s.len() as int)),
    decreases k,
{
    if k > 0 {
        assert(s.drop_first().subrange(k - 1, s.drop_first().len() as int) =~= s.subrange(
            k,
            s.len() as int,
        ));
        lemma_skip_blanks_suffix(s.drop_first(), k - 1);
    } else {
        assert(s.subrange(0, s.len() as int) =~= s);
    }
}

/// Yields the statement given to it, trimmed, at most once.
pub struct PipelineIterator<'a> {
    pub match_str: &'a str,
    pub finished: bool,
}

impl<'a> PipelineIterator<'a> {
    pub fn new(match_str: &'a str) -> (r: PipelineIterator<'a>)
        ensures
            r.match_str@ == match_str@,
            !r.finished,
    {
        PipelineIterator { match_str, finished: false }
    }

    /// The first call yields the trimmed statement unless it is blank; later
    /// calls yield nothing.
    pub fn next(&mut self) -> (r: Option<&'a str>)
        ensures
            final(self).match_str == old(self).match_str,
            final(self).finished,
            old(self).finished ==> r is None,
            !old(self).finished ==> match trimmed(old(self).match_str@) {
                Some(t) => r is Some && r->0@ == t,
                None => r is None,
            },
    {
        if self.finished {
            return None;
        }
        self.finished = true;
        let s = self.match_str;
        let n = s.unicode_len();
        let mut start: usize = 0;
        while start < n && (s.get_char(start) == ' ' || s.get_char(start) == '\t')
            invariant
                n == s@.len(),
                0 <= start <= n,
                !old(self).finished,
                self.match_str == old(self).match_str,
                self.match_str == s,
                self.finished,
                forall|j: int| 0 <= j < start ==> is_blank(#[trigger] s@[j]),
            decreases n - start,
        {
            start = start + 1;
        }
        let rest = s.substring_char(start, n);
        proof {
            lemma_skip_blanks_suffix(s@, start as int);
            assert(skip_blanks(rest@) == rest@);
        }
        let mut k: usize = start;
        while k < n
            invariant
                start <= k <= n,
                self.match_str == old(self).match_str,
                self.match_str == s,
                self.finished,
                n == s@.len(),
                rest@ == s@.subrange(start as int, n as int),
                skip_blanks(s@) == rest@,
                !old(self).finished,
                forall|j: int| start <= j < k ==> is_white(#[trigger] s@[j]),
            decreases n - k,
        {
            let c = s.get_char(k);
            if c != ' ' && c != '\t' && c != '\r' && c != '\n' {
                assert(rest@[k - start] == c);
                return Some(rest);
            }
            k = k + 1;
        }
        assert(!has_content(rest@)) by {
            assert forall|j: int| 0 <= j < rest@.len() implies is_white(#[trigger] rest@[j]) by {
                assert(rest@[j] == s@[j + start]);
            }
        }
        None
    }
}

} // verus!
