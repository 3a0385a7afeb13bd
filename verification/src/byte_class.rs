//! Sets of bytes and the runs of bytes that the request grammar is made of.

use vstd::prelude::*;

verus! {

/// `nom::character::is_space` is true of the space and the tab, and of no other byte.
pub assume_specification[ nom::character::is_space ](chr: u8) -> (r: bool)
    ensures
        r == spec_is_space(chr),
;

/// Space or tab: what ends a token inside a line.
pub open spec fn spec_is_space(b: u8) -> bool {
    b == 32 || b == 9
}

/// Space, tab, carriage return or line feed: what may stand between tokens.
pub open spec fn spec_is_multispace(b: u8) -> bool {
    b == 32 || b == 9 || b == 13 || b == 10
}

/// An ASCII letter or digit.
pub open spec fn spec_is_alphanumeric(b: u8) -> bool {
    (48 <= b && b <= 57) || (65 <= b && b <= 90) || (97 <= b && b <= 122)
}

/// The byte with an ASCII capital letter replaced by its small letter.
pub open spec fn spec_lowercase(b: u8) -> u8 {
    if 65 <= b && b <= 90 {
        (b + 32) as u8
    } else {
        b
    }
}

/// Whether `b` is a space, a tab, a carriage return or a line feed.
#[verifier::when_used_as_spec(spec_is_multispace)]
pub fn is_multispace(b: u8) -> (r: bool)
    ensures
        r == spec_is_multispace(b),
{
    b == 32 || b == 9 || b == 13 || b == 10
}

/// Whether `b` is an ASCII letter or digit.
#[verifier::when_used_as_spec(spec_is_alphanumeric)]
pub fn is_alphanumeric(b: u8) -> (r: bool)
    ensures
        r == spec_is_alphanumeric(b),
{
    (48 <= b && b <= 57) || (65 <= b && b <= 90) || (97 <= b && b <= 122)
}

/// `b`, or its small letter if `b` is an ASCII capital.
#[verifier::when_used_as_spec(spec_lowercase)]
pub fn lowercase(b: u8) -> (r: u8)
    ensures
        r == spec_lowercase(b),
{
    if 65 <= b && b <= 90 {
        b + 32
    } else {
        b
    }
}

/// The sets of bytes over which the grammar takes its longest runs.
#[derive(Clone, Copy, Debug)]
pub enum ByteClass {
    /// Space, tab, carriage return, line feed.
    Whitespace,
    /// Anything but space, tab and `?`.
    Path,
    /// ASCII letters and digits.
    Key,
    /// Anything but space, tab and `&`.
    ParamValue,
    /// Anything but whitespace and `:`.
    HeaderName,
    /// Anything but `,`, carriage return and line feed.
    HeaderValue,
}

impl ByteClass {
    /// Whether `b` is of the class.
    pub open spec fn spec_contains(self, b: u8) -> bool {
        match self {
            ByteClass::Whitespace => spec_is_multispace(b),
            ByteClass::Path => !spec_is_space(b) && b != 63,
            ByteClass::Key => spec_is_alphanumeric(b),
            ByteClass::ParamValue => !spec_is_space(b) && b != 38,
            ByteClass::HeaderName => !spec_is_multispace(b) && b != 58,
            ByteClass::HeaderValue => b != 44 && b != 13 && b != 10,
        }
    }

    /// Whether `b` is of the class.
    #[verifier::when_used_as_spec(spec_contains)]
    pub fn contains(self, b: u8) -> (r: bool)
        ensures
            r == self.spec_contains(b),
    {
        match self {
            ByteClass::Whitespace => is_multispace(b),
            ByteClass::Path => !nom::character::is_space(b) && b != 63,
            ByteClass::Key => is_alphanumeric(b),
            ByteClass::ParamValue => !nom::character::is_space(b) && b != 38,
            ByteClass::HeaderName => !is_multispace(b) && b != 58,
            ByteClass::HeaderValue => b != 44 && b != 13 && b != 10,
        }
    }
}

/// Where the longest run of bytes of `class` that begins at `start` ends.
pub open spec fn run_end(s: Seq<u8>, start: int, class: ByteClass) -> int
    decreases s.len() - start,
{
    if 0 <= start < s.len() && class.spec_contains(s[start]) {
        run_end(s, start + 1, class)
    } else {
        start
    }
}

/// A run ends inside the input, holds only bytes of its class, and is
/// followed by the end of the input or by a byte outside the class.
pub proof fn lemma_run_end(s: Seq<u8>, start: int, class: ByteClass)
    requires
        0 <= start <= s.len(),
    ensures
        start <= run_end(s, start, class) <= s.len(),
        forall|k: int| start <= k < run_end(s, start, class) ==> class.spec_contains(#[trigger] s[k]),
        run_end(s, start, class) < s.len() ==> !class.spec_contains(s[run_end(s, start, class)]),
    decreases s.len() - start,
{
    if start < s.len() && class.spec_contains(s[start]) {
        lemma_run_end(s, start + 1, class);
    }
}

/// A position that a run reaches without leaving its class is where the run
/// ends, if the run cannot go on from there.
pub proof fn lemma_run_end_is(s: Seq<u8>, start: int, end: int, class: ByteClass)
    requires
        0 <= start <= end <= s.len(),
        forall|k: int| start <= k < end ==> class.spec_contains(#[trigger] s[k]),
        end < s.len() ==> !class.spec_contains(s[end]),
    ensures
        run_end(s, start, class) == end,
    decreases end - start,
{
    if start < end {
        lemma_run_end_is(s, start + 1, end, class);
    }
}

/// Scans the longest run of `class` from `start`.
pub fn scan(input: &[u8], start: usize, class: ByteClass) -> (end: usize)
    requires
        start <= input@.len(),
    ensures
        end == run_end(input@, start as int, class),
        start <= end <= input@.len(),
{
    let mut i: usize = start;
    while i < input.len() && class.contains(input[i])
        invariant
            start <= i <= input@.len(),
            run_end(input@, start as int, class) == run_end(input@, i as int, class),
        decreases input@.len() - i,
    {
        i = i + 1;
    }
    i
}

} // verus!
