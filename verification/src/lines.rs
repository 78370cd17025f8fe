//! A line source over in-memory text, with the trailing-whitespace
//! stripping that both operations apply to every line they read.

use vstd::prelude::*;

verus! {

/// The characters treated as (ASCII) whitespace when a line's tail is
/// stripped.
pub open spec fn is_space(c: char) -> bool {
    c == ' ' || c == '\t' || c == '\n' || c == '\r' || c == '\u{b}' || c == '\u{c}'
}

/// `s` with every trailing whitespace character removed.
pub open spec fn trim_spec(s: Seq<char>) -> Seq<char>
    decreases s.len(),
{
    if s.len() > 0 && is_space(s.last()) {
        trim_spec(s.drop_last())
    } else {
        s
    }
}

/// The views of a sequence of lines after each is stripped of trailing
/// whitespace: what a `ReadBuffer` over those lines will hand out.
pub open spec fn trimmed_views(lines: Seq<String>) -> Seq<Seq<char>> {
    lines.map_values(|l: String| trim_spec(l@))
}

/// The views of a sequence of lines, unchanged.
pub open spec fn views_of(lines: Seq<String>) -> Seq<Seq<char>> {
    lines.map_values(|l: String| l@)
}

/// Stripping trailing whitespace twice is the same as stripping it once.
pub proof fn lemma_trim_idempotent(s: Seq<char>)
    ensures
        trim_spec(trim_spec(s)) == trim_spec(s),
    decreases s.len(),
{
    if s.len() > 0 && is_space(s.last()) {
        lemma_trim_idempotent(s.drop_last());
    }
}

fn is_space_char(c: char) -> (r: bool)
    ensures
        r == is_space(c),
{
    c == ' ' || c == '\t' || c == '\n' || c == '\r' || c == '\u{b}' || c == '\u{c}'
}

/// A fresh `String` holding `s` with its trailing whitespace removed.
pub fn trim_line(s: &str) -> (r: String)
    ensures
        r@ == trim_spec(s@),
{
    let len = s.unicode_len();
    let mut end: usize = len;
    proof {
        assert(s@.subrange(0, len as int) =~= s@);
    }
    loop
        invariant
            end <= len,
            len == s@.len(),
            trim_spec(s@) == trim_spec(s@.subrange(0, end as int)),
        ensures
            end <= len,
            trim_spec(s@) == trim_spec(s@.subrange(0, end as int)),
            end > 0 ==> !is_space(s@[end - 1]),
        decreases end,
    {
        if end == 0 {
            break;
        }
        let c = s.get_char(end - 1);
        if !is_space_char(c) {
            break;
        }
        proof {
            let pre = s@.subrange(0, end as int);
            assert(pre.last() == s@[end - 1]);
            assert(pre.drop_last() =~= s@.subrange(0, end - 1));
        }
        end = end - 1;
    }
    proof {
        let pre = s@.subrange(0, end as int);
        if end == 0 {
            assert(pre =~= Seq::<char>::empty());
        } else {
            assert(pre.last() == s@[end - 1]);
        }
    }
    s.substring_char(0, end).to_owned()
}

/// A line source: hands out the lines it was given one at a time, each
/// stripped of trailing whitespace, until none are left.
///
/// Its view is the sequence of stripped lines still to be read.
pub struct ReadBuffer {
    lines: Vec<String>,
    pos: usize,
}

impl View for ReadBuffer {
    type V = Seq<Seq<char>>;

    closed spec fn view(&self) -> Seq<Seq<char>> {
        trimmed_views(self.lines@).skip(self.pos as int)
    }
}

impl ReadBuffer {
    #[verifier::type_invariant]
    spec fn inv(&self) -> bool {
        self.pos <= self.lines@.len()
    }

    /// A source over the given lines, positioned at the first of them.
    pub fn new(lines: Vec<String>) -> (r: ReadBuffer)
        ensures
            r@ == trimmed_views(lines@),
    {
        let r = ReadBuffer { lines, pos: 0 };
        proof {
            assert(r@ =~= trimmed_views(r.lines@));
        }
        r
    }

    /// How many lines are left to read.
    pub fn remaining(&self) -> (n: usize)
        ensures
            n == self@.len(),
    {
        proof {
            use_type_invariant(self);
        }
        self.lines.len() - self.pos
    }

    /// The next line, stripped of trailing whitespace, or `None` once the
    /// source is exhausted.
    pub fn get_line(&mut self) -> (r: Option<String>)
        ensures
            old(self)@.len() == 0 ==> r is None && *final(self) == *old(self),
            old(self)@.len() > 0 ==> {
                &&& final(self)@ == old(self)@.drop_first()
                &&& r matches Some(l) && l@ == old(self)@.first()
            },
    {
        proof {
            use_type_invariant(&*self);
        }
        let ghost s0 = *self;
        if self.pos < self.lines.len() {
            let line = trim_line(self.lines[self.pos].as_str());
            proof {
                assert(s0@.first() == trimmed_views(s0.lines@)[s0.pos as int]);
                assert(line@ == s0@.first());
            }
            self.pos = self.pos + 1;
            proof {
                assert(self@ =~= s0@.drop_first());
            }
            Some(line)
        } else {
            None
        }
    }
}

} // verus!
