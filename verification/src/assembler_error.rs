//! Assembler diagnostics: an error message with, where derivable, the source
//! line and a column/length span into the original line text.

use vstd::prelude::*;

verus! {

/// A column/length span within one source line, for caret-style diagnostics.
#[derive(Debug, Clone, Copy, PartialEq, Eq, Structural)]
pub struct LineLocation {
    pub column: u32,
    pub length: u32,
}

/// A place in the source: a line number and, where derivable, a span within
/// the line.
#[derive(Debug, Clone, Copy, PartialEq, Eq, Structural)]
pub struct Location {
    pub line_location: Option<LineLocation>,
    pub line_num: u32,
}

/// One assembler diagnostic.
#[derive(Debug)]
pub struct AssemblerError {
    pub message: String,
    pub src_location: Option<Location>,
}

/// The mathematical content of an `AssemblerError`.
#[verifier::ext_equal]
pub ghost struct ErrView {
    pub message: Seq<char>,
    pub src_location: Option<Location>,
}

impl View for AssemblerError {
    type V = ErrView;

    open spec fn view(&self) -> ErrView {
        ErrView { message: self.message@, src_location: self.src_location }
    }
}

impl AssemblerError {
    /// An error from a message and an optional location.
    pub fn new(message: String, src_location: Option<Location>) -> (r: Self)
        ensures
            r@ == (ErrView { message: message@, src_location }),
    {
        Self { message, src_location }
    }

    /// An error with a known location.
    pub fn new_no_options(message: String, src_location: Location) -> (r: Self)
        ensures
            r@ == (ErrView { message: message@, src_location: Some(src_location) }),
    {
        Self::new(message, Some(src_location))
    }

    /// An error with no usable location.
    pub fn new_message(message: String) -> (r: Self)
        ensures
            r@ == (ErrView { message: message@, src_location: None }),
    {
        Self::new(message, None)
    }
}

impl Location {
    /// A location from a line number and an optional span.
    pub fn new(line_location: Option<LineLocation>, line_num: u32) -> (r: Self)
        ensures
            r == (Location { line_location, line_num }),
    {
        Self { line_location, line_num }
    }

    /// A location with a known span.
    pub fn new_no_options(line_location: LineLocation, line_num: u32) -> (r: Self)
        ensures
            r == (Location { line_location: Some(line_location), line_num }),
    {
        Self::new(Some(line_location), line_num)
    }

    /// A location with the line number alone.
    pub fn new_line_num(line_num: u32) -> (r: Self)
        ensures
            r == (Location { line_location: None, line_num }),
    {
        Self::new(None, line_num)
    }
}

/// The first index at which `needle` occurs in `hay`, if anywhere.
pub open spec fn spec_find_sub(hay: Seq<char>, needle: Seq<char>) -> Option<int>
    decreases hay.len(),
{
    if needle.len() > hay.len() {
        None
    } else if hay.take(needle.len() as int) == needle {
        Some(0int)
    } else if hay.len() == 0 {
        None
    } else {
        match spec_find_sub(hay.skip(1), needle) {
            None => None,
            Some(i) => Some(i + 1),
        }
    }
}

/// Where the first occurrence stands: the needle matches there and nowhere
/// earlier; absence means it matches nowhere.
pub proof fn lemma_find_sub(hay: Seq<char>, needle: Seq<char>)
    ensures
        match spec_find_sub(hay, needle) {
            Some(i) => {
                &&& 0 <= i
                &&& i + needle.len() <= hay.len()
                &&& hay.subrange(i, i + needle.len()) == needle
                &&& forall|j: int| #![trigger hay.subrange(j, j + needle.len() as int)]
                    0 <= j < i ==> hay.subrange(j, j + needle.len() as int) != needle
            },
            None => forall|j: int| #![trigger hay.subrange(j, j + needle.len() as int)]
                0 <= j && j + needle.len() <= hay.len() ==> hay.subrange(
                    j,
                    j + needle.len() as int,
                ) != needle,
        },
    decreases hay.len(),
{
    let nl = needle.len() as int;
    if needle.len() > hay.len() {
    } else if hay.take(nl) == needle {
        assert(hay.subrange(0, nl) =~= hay.take(nl));
    } else if hay.len() == 0 {
        assert(needle.len() == 0);
        assert(hay.take(nl) =~= needle);
    } else {
        lemma_find_sub(hay.skip(1), needle);
        assert forall|j: int| #![trigger hay.subrange(j, j + nl)]
            1 <= j && j + nl <= hay.len() implies hay.subrange(j, j + nl) =~= hay.skip(1).subrange(
            j - 1,
            j - 1 + nl,
        ) by {}
        assert(hay.subrange(0, nl) =~= hay.take(nl));
        match spec_find_sub(hay.skip(1), needle) {
            None => {
                assert forall|j: int| #![trigger hay.subrange(j, j + nl)]
                    0 <= j && j + nl <= hay.len() implies hay.subrange(j, j + nl) != needle by {
                    if j == 0 {
                    } else {
                        assert(hay.skip(1).subrange(j - 1, j - 1 + nl) != needle);
                    }
                }
            },
            Some(i) => {
                assert(hay.subrange(i + 1, i + 1 + nl) =~= hay.skip(1).subrange(i, i + nl));
                assert forall|j: int| #![trigger hay.subrange(j, j + nl)]
                    0 <= j < i + 1 implies hay.subrange(j, j + nl) != needle by {
                    if j > 0 {
                        assert(hay.skip(1).subrange(j - 1, j - 1 + nl) != needle);
                    }
                }
            },
        }
    }
}

/// The scan position after locating words 0 up to (excluding) `k` in turn:
/// each word is sought from the position after the previous one, and the
/// position moves past it.
pub open spec fn spec_scan_start(line: Seq<char>, words: Seq<Seq<char>>, k: nat) -> Option<int>
    decreases k,
{
    if k == 0 {
        Some(0int)
    } else if k > words.len() {
        None
    } else {
        match spec_scan_start(line, words, (k - 1) as nat) {
            None => None,
            Some(st) => if 0 <= st <= line.len() {
                match spec_find_sub(line.skip(st), words[k - 1]) {
                    None => None,
                    Some(i) => Some(st + i + words[k - 1].len()),
                }
            } else {
                None
            },
        }
    }
}

/// The span of word `word_index` within the line, found by scanning the
/// words in order, if every word up to it occurs.
pub open spec fn spec_try_span(line: Seq<char>, words: Seq<Seq<char>>, word_index: int) -> Option<
    LineLocation,
> {
    if 0 <= word_index < words.len() {
        match spec_scan_start(line, words, (word_index + 1) as nat) {
            None => None,
            Some(st) => Some(
                LineLocation {
                    column: (st - words[word_index].len()) as u32,
                    length: words[word_index].len() as u32,
                },
            ),
        }
    } else {
        None
    }
}

/// A scan position is never negative and never past the line.
pub proof fn lemma_scan_start_bounds(line: Seq<char>, words: Seq<Seq<char>>, k: nat)
    ensures
        match spec_scan_start(line, words, k) {
            Some(st) => 0 <= st <= line.len(),
            None => true,
        },
    decreases k,
{
    if k > 0 && k <= words.len() {
        lemma_scan_start_bounds(line, words, (k - 1) as nat);
        match spec_scan_start(line, words, (k - 1) as nat) {
            None => {},
            Some(st) => {
                if 0 <= st <= line.len() {
                    lemma_find_sub(line.skip(st), words[k - 1]);
                }
            },
        }
    }
}

/// Find the first occurrence of `needle` in `hay` at or after `from`,
/// reported relative to `from`.
fn find_sub_from(hay: &Vec<char>, from: usize, needle: &Vec<char>) -> (r: Option<usize>)
    requires
        from <= hay@.len(),
    ensures
        match r {
            Some(i) => spec_find_sub(hay@.skip(from as int), needle@) == Some(i as int),
            None => spec_find_sub(hay@.skip(from as int), needle@) is None,
        },
{
    let ghost h = hay@.skip(from as int);
    proof {
        lemma_find_sub(h, needle@);
    }
    let nlen = needle.len();
    let hlen = hay.len();
    if nlen > hlen - from {
        return None;
    }
    let mut i: usize = 0;
    while i <= hlen - from - nlen
        invariant
            from + nlen <= hlen,
            hlen == hay@.len(),
            nlen == needle@.len(),
            h == hay@.skip(from as int),
            i <= hlen - from - nlen + 1,
            forall|j: int| #![trigger h.subrange(j, j + nlen as int)]
                0 <= j < i ==> h.subrange(j, j + nlen as int) != needle@,
        decreases hlen - from - nlen + 1 - i,
    {
        let mut m: usize = 0;
        while m < nlen && hay[from + i + m] == needle[m]
            invariant
                from + i + nlen <= hlen,
                hlen == hay@.len(),
                nlen == needle@.len(),
                h == hay@.skip(from as int),
                m <= nlen,
                forall|q: int| 0 <= q < m ==> h[i + q] == needle@[q],
            decreases nlen - m,
        {
            proof {
                assert(h[i + m] == hay@[from + i + m]);
            }
            m = m + 1;
        }
        if m == nlen {
            proof {
                lemma_find_sub(h, needle@);
                assert(nlen as int == needle@.len());
                assert forall|q: int| 0 <= q < nlen implies h.subrange(
                    i as int,
                    i + nlen as int,
                )[q] == needle@[q] by {
                    assert(h[i + q] == needle@[q]);
                }
                assert(h.subrange(i as int, i + nlen as int) =~= needle@);
                match spec_find_sub(h, needle@) {
                    Some(fi) => {
                        if fi < i {
                            assert(h.subrange(fi, fi + nlen as int) == needle@);
                        }
                        if fi > i {
                            assert(h.subrange(i as int, i + nlen as int) != needle@);
                        }
                    },
                    None => {
                        assert(h.subrange(i as int, i + nlen as int) != needle@);
                    },
                }
            }
            return Some(i);
        }
        proof {
            lemma_find_sub(h, needle@);
            assert(m < nlen);
            assert(h[i + m] == hay@[from + i + m]);
            assert(h.subrange(i as int, i + nlen as int)[m as int] == h[i + m]);
            assert(h.subrange(i as int, i + nlen as int) != needle@);
        }
        i = i + 1;
    }
    proof {
        lemma_find_sub(h, needle@);
        match spec_find_sub(h, needle@) {
            Some(fi) => {
                assert(h.subrange(fi, fi + nlen as int) == needle@);
            },
            None => {},
        }
    }
    None
}

impl LineLocation {
    /// A span from a column and a length.
    pub fn new(column: u32, length: u32) -> (r: Self)
        ensures
            r == (LineLocation { column, length }),
    {
        Self { column, length }
    }

    /// Locate word `word_index` of `words` within `line` by scanning the
    /// words in order, as a column/length span.
    pub fn try_from_line_words(line: &str, words: &Vec<&str>, word_index: usize) -> (r: Option<
        LineLocation,
    >)
        ensures
            r == spec_try_span(
                line@,
                words@.map_values(|w: &str| w@),
                word_index as int,
            ),
    {
        let ghost wviews = words@.map_values(|w: &str| w@);
        if word_index >= words.len() {
            return None;
        }
        let chars = crate::text::to_char_vec(line);
        let n = chars.len();
        let total_words = words.len();
        let mut start: usize = 0;
        let mut k: usize = 0;
        while k <= word_index
            invariant
                word_index < total_words,
                total_words == words@.len(),
                wviews == words@.map_values(|w: &str| w@),
                chars@ == line@,
                n == line@.len(),
                k <= word_index + 1,
                spec_scan_start(line@, wviews, k as nat) == Some(start as int),
                start <= line@.len(),
            decreases word_index + 1 - k,
        {
            let word = words[k];
            let wchars = crate::text::to_char_vec(word);
            proof {
                assert(wviews[k as int] == word@);
            }
            let found = find_sub_from(&chars, start, &wchars);
            match found {
                None => {
                    proof {
                        assert(spec_scan_start(line@, wviews, (k + 1) as nat) is None);
                        assert forall|q: nat|
                            k + 1 <= q <= word_index + 1 implies spec_scan_start(
                            line@,
                            wviews,
                            q,
                        ) is None by {
                            lemma_scan_none_sticks(line@, wviews, (k + 1) as nat, q);
                        }
                    }
                    return None;
                },
                Some(i) => {
                    proof {
                        assert(spec_find_sub(line@.skip(start as int), word@) == Some(i as int));
                        lemma_find_sub(line@.skip(start as int), word@);
                        assert(i + word@.len() <= line@.skip(start as int).len());
                        assert(start + i + word@.len() <= line@.len());
                        lemma_scan_start_bounds(line@, wviews, (k + 1) as nat);
                    }
                    start = start + i + word.unicode_len();
                    k = k + 1;
                },
            }
        }
        let length = words[word_index].unicode_len();
        proof {
            assert(wviews[word_index as int] == words@[word_index as int]@);
            assert(length == wviews[word_index as int].len());
            assert(k == word_index + 1);
            assert(spec_scan_start(line@, wviews, (word_index + 1) as nat) == Some(
                start as int,
            ));
            lemma_scan_start_bounds(line@, wviews, word_index as nat);
            match spec_scan_start(line@, wviews, word_index as nat) {
                Some(prev) => {
                    lemma_find_sub(line@.skip(prev), wviews[word_index as int]);
                    match spec_find_sub(line@.skip(prev), wviews[word_index as int]) {
                        Some(fi) => {
                            assert(start as int == prev + fi + wviews[word_index as int].len());
                        },
                        None => {},
                    }
                },
                None => {},
            }
            assert(start >= length);
        }
        Some(LineLocation { column: (start - length) as u32, length: length as u32 })
    }
}

/// Once a scan fails it stays failed for every later word.
proof fn lemma_scan_none_sticks(line: Seq<char>, words: Seq<Seq<char>>, k: nat, q: nat)
    requires
        spec_scan_start(line, words, k) is None,
        k <= q,
    ensures
        spec_scan_start(line, words, q) is None,
    decreases q,
{
    if q > k {
        lemma_scan_none_sticks(line, words, k, (q - 1) as nat);
    }
}

} // verus!
