//! Text scanning for the assembler: splitting source text into lines,
//! cutting comments, splitting lines into words, and locating words inside a
//! line. Specified over sequences of characters.

use vstd::prelude::*;

verus! {

/// Horizontal whitespace between words.
pub open spec fn spec_is_space(c: char) -> bool {
    c == ' ' || c == '\t' || c == '\r'
}

/// The index of the first line break, or the length when there is none.
pub open spec fn spec_find_newline(s: Seq<char>) -> int
    decreases s.len(),
{
    if s.len() == 0 {
        0
    } else if s[0] == '\n' {
        0
    } else {
        1 + spec_find_newline(s.skip(1))
    }
}

/// Where the first line break stands: nothing before it is one, and it is
/// one unless the text ran out.
pub proof fn lemma_find_newline(s: Seq<char>)
    ensures
        0 <= spec_find_newline(s) <= s.len(),
        forall|k: int| 0 <= k < spec_find_newline(s) ==> s[k] != '\n',
        spec_find_newline(s) < s.len() ==> s[spec_find_newline(s)] == '\n',
    decreases s.len(),
{
    if s.len() > 0 && s[0] != '\n' {
        lemma_find_newline(s.skip(1));
        assert forall|k: int| 0 <= k < spec_find_newline(s) implies s[k] != '\n' by {
            if k > 0 {
                assert(s.skip(1)[k - 1] == s[k]);
            }
        }
        if spec_find_newline(s) < s.len() {
            assert(s.skip(1)[spec_find_newline(s) - 1] == s[spec_find_newline(s)]);
        }
    }
}

/// The lines of the text: maximal runs between line breaks. A trailing line
/// break opens no extra empty line.
pub open spec fn spec_lines(s: Seq<char>) -> Seq<Seq<char>>
    decreases s.len(),
{
    if s.len() == 0 {
        Seq::empty()
    } else {
        let i = spec_find_newline(s);
        if i < 0 || i >= s.len() {
            seq![s]
        } else {
            seq![s.take(i)] + spec_lines(s.skip(i + 1))
        }
    }
}

/// The index where the comment starts (a `;`, `#` or `@`, or two slashes),
/// or the length when the line holds none.
pub open spec fn spec_find_comment(s: Seq<char>) -> int
    decreases s.len(),
{
    if s.len() == 0 {
        0
    } else if s[0] == ';' || s[0] == '#' || s[0] == '@' {
        0
    } else if s[0] == '/' && s.len() >= 2 && s[1] == '/' {
        0
    } else {
        1 + spec_find_comment(s.skip(1))
    }
}

/// Where the comment starts: no marker stands before it, and one stands at
/// it unless the line ran out.
pub proof fn lemma_find_comment(s: Seq<char>)
    ensures
        0 <= spec_find_comment(s) <= s.len(),
        forall|k: int| #![trigger s[k]]
            0 <= k < spec_find_comment(s) ==> !(s[k] == ';' || s[k] == '#' || s[k] == '@' || (s[k]
                == '/' && k + 1 < s.len() && s[k + 1] == '/')),
        spec_find_comment(s) < s.len() ==> (s[spec_find_comment(s)] == ';' || s[spec_find_comment(
            s,
        )] == '#' || s[spec_find_comment(s)] == '@' || (s[spec_find_comment(s)] == '/'
            && spec_find_comment(s) + 1 < s.len() && s[spec_find_comment(s) + 1] == '/')),
    decreases s.len(),
{
    if s.len() > 0 && !(s[0] == ';' || s[0] == '#' || s[0] == '@') && !(s[0] == '/' && s.len() >= 2
        && s[1] == '/') {
        lemma_find_comment(s.skip(1));
        assert forall|k: int| #![trigger s[k]]
            0 <= k < spec_find_comment(s) implies !(s[k] == ';' || s[k] == '#' || s[k] == '@' || (
        s[k] == '/' && k + 1 < s.len() && s[k + 1] == '/')) by {
            if k > 0 {
                assert(s.skip(1)[k - 1] == s[k]);
                if k + 1 < s.len() {
                    assert(s.skip(1)[k] == s[k + 1]);
                }
            }
        }
        let f = spec_find_comment(s);
        if f < s.len() {
            assert(s.skip(1)[f - 1] == s[f]);
            if f + 1 < s.len() {
                assert(s.skip(1)[f] == s[f + 1]);
            }
        }
    }
}

/// The line with its comment discarded.
pub open spec fn spec_cut_comment(s: Seq<char>) -> Seq<char> {
    let i = spec_find_comment(s);
    if 0 <= i <= s.len() {
        s.take(i)
    } else {
        s
    }
}

/// The index of the first whitespace character, or the length when there is
/// none.
pub open spec fn spec_find_space(s: Seq<char>) -> int
    decreases s.len(),
{
    if s.len() == 0 {
        0
    } else if spec_is_space(s[0]) {
        0
    } else {
        1 + spec_find_space(s.skip(1))
    }
}

/// Where the first whitespace stands: nothing before it is whitespace, and
/// it is whitespace unless the text ran out.
pub proof fn lemma_find_space(s: Seq<char>)
    ensures
        0 <= spec_find_space(s) <= s.len(),
        forall|k: int| 0 <= k < spec_find_space(s) ==> !spec_is_space(s[k]),
        spec_find_space(s) < s.len() ==> spec_is_space(s[spec_find_space(s)]),
    decreases s.len(),
{
    if s.len() > 0 && !spec_is_space(s[0]) {
        lemma_find_space(s.skip(1));
        assert forall|k: int| 0 <= k < spec_find_space(s) implies !spec_is_space(s[k]) by {
            if k > 0 {
                assert(s.skip(1)[k - 1] == s[k]);
            }
        }
        if spec_find_space(s) < s.len() {
            assert(s.skip(1)[spec_find_space(s) - 1] == s[spec_find_space(s)]);
        }
    }
}

/// The whitespace-separated words of the text, in order.
pub open spec fn spec_split_words(s: Seq<char>) -> Seq<Seq<char>>
    decreases s.len(),
{
    if s.len() == 0 {
        Seq::empty()
    } else if spec_is_space(s[0]) {
        spec_split_words(s.skip(1))
    } else {
        let i = spec_find_space(s);
        if 1 <= i <= s.len() {
            seq![s.take(i)] + spec_split_words(s.skip(i))
        } else {
            seq![s]
        }
    }
}

/// The word with one trailing comma stripped.
pub open spec fn spec_strip_comma(w: Seq<char>) -> Seq<char> {
    if w.len() > 0 && w[w.len() - 1] == ',' {
        w.take(w.len() - 1)
    } else {
        w
    }
}

/// The words of one source line: the comment discarded, the rest split on
/// whitespace, and a trailing comma stripped from each word.
pub open spec fn spec_line_words(line: Seq<char>) -> Seq<Seq<char>> {
    spec_split_words(spec_cut_comment(line)).map_values(|w: Seq<char>| spec_strip_comma(w))
}

/// The characters of the text, one vector entry each.
pub fn to_char_vec(s: &str) -> (v: Vec<char>)
    ensures
        v@ == s@,
{
    let n = s.unicode_len();
    let mut v: Vec<char> = Vec::with_capacity(n);
    let mut i: usize = 0;
    while i < n
        invariant
            i <= n,
            n == s@.len(),
            v@ =~= s@.take(i as int),
        decreases n - i,
    {
        v.push(s.get_char(i));
        i = i + 1;
        proof {
            assert(v@ =~= s@.take(i as int));
        }
    }
    proof {
        assert(v@ =~= s@);
    }
    v
}

/// Split the text into its lines, as borrowed slices.
pub fn split_lines<'a>(text: &'a str) -> (r: Vec<&'a str>)
    ensures
        r@.len() == spec_lines(text@).len(),
        forall|k: int| 0 <= k < r@.len() ==> r@[k]@ == spec_lines(text@)[k],
{
    let chars = to_char_vec(text);
    let n = chars.len();
    let mut r: Vec<&'a str> = Vec::new();
    let mut pos: usize = 0;
    proof {
        assert(text@.skip(0) =~= text@);
        assert(r@.map_values(|t: &str| t@) =~= Seq::<Seq<char>>::empty());
    }
    while pos < n
        invariant
            pos <= n,
            n == text@.len(),
            chars@ == text@,
            spec_lines(text@) =~= r@.map_values(|t: &str| t@) + spec_lines(text@.skip(pos as int)),
        decreases n - pos,
    {
        let ghost p0 = pos as int;
        let ghost rest = text@.skip(pos as int);
        let ghost rold = r@;
        let mut e: usize = pos;
        while e < n && chars[e] != '\n'
            invariant
                pos <= e <= n,
                n == text@.len(),
                chars@ == text@,
                forall|k: int| pos <= k < e ==> text@[k] != '\n',
            decreases n - e,
        {
            e = e + 1;
        }
        proof {
            lemma_find_newline(rest);
            assert forall|k: int| 0 <= k < e - pos implies rest[k] != '\n' by {
                assert(rest[k] == text@[pos + k]);
            }
            if e < n {
                assert(rest[e - pos] == text@[e as int]);
            }
            assert(spec_find_newline(rest) == e - pos);
        }
        let line = text.substring_char(pos, e);
        r.push(line);
        if e < n {
            pos = e + 1;
        } else {
            pos = n;
        }
        proof {
            assert(r@.map_values(|t: &str| t@) =~= rold.map_values(|t: &str| t@).push(line@));
            if e < n {
                assert(line@ =~= rest.take(e - p0));
                assert(rest.skip((e - p0) + 1) =~= text@.skip(pos as int));
                assert(spec_lines(rest) =~= seq![line@] + spec_lines(text@.skip(pos as int)));
            } else {
                assert(line@ =~= rest);
                assert(spec_lines(rest) =~= seq![line@]);
                assert(text@.skip(pos as int) =~= Seq::<char>::empty());
                assert(spec_lines(rest) =~= seq![line@] + spec_lines(text@.skip(pos as int)));
            }
            assert(spec_lines(text@) =~= r@.map_values(|t: &str| t@) + spec_lines(
                text@.skip(pos as int),
            ));
        }
    }
    proof {
        assert(text@.skip(pos as int) =~= Seq::<char>::empty());
        assert(r@.map_values(|t: &str| t@) =~= spec_lines(text@));
    }
    r
}

/// Whether the character separates words.
pub fn is_space_char(c: char) -> (r: bool)
    ensures
        r == spec_is_space(c),
{
    c == ' ' || c == '\t' || c == '\r'
}

/// Split one line into its words: cut the comment, split on whitespace,
/// strip one trailing comma from each word.
pub fn get_line_words<'a>(line: &'a str) -> (r: Vec<&'a str>)
    ensures
        r@.len() == spec_line_words(line@).len(),
        forall|k: int| 0 <= k < r@.len() ==> r@[k]@ == spec_line_words(line@)[k],
{
    let chars = to_char_vec(line);
    let n = chars.len();

    let mut cut: usize = 0;
    while cut < n && !(chars[cut] == ';' || chars[cut] == '#' || chars[cut] == '@' || (chars[cut]
        == '/' && cut + 1 < n && chars[cut + 1] == '/'))
        invariant
            cut <= n,
            n == line@.len(),
            chars@ == line@,
            forall|k: int| #![trigger line@[k]]
                0 <= k < cut ==> !(line@[k] == ';' || line@[k] == '#' || line@[k] == '@' || (
                line@[k] == '/' && k + 1 < line@.len() && line@[k + 1] == '/')),
        decreases n - cut,
    {
        cut = cut + 1;
    }
    proof {
        lemma_find_comment(line@);
        assert(spec_find_comment(line@) == cut);
        assert(spec_cut_comment(line@) == line@.take(cut as int));
    }
    let ghost body = spec_cut_comment(line@);

    let mut r: Vec<&'a str> = Vec::new();
    let ghost mut raws: Seq<Seq<char>> = Seq::empty();
    let mut pos: usize = 0;
    proof {
        assert(body.skip(0) =~= body);
        assert(spec_split_words(body) =~= raws + spec_split_words(body.skip(0)));
    }
    while pos < cut
        invariant
            pos <= cut <= n,
            n == line@.len(),
            chars@ == line@,
            body == spec_cut_comment(line@),
            body == line@.take(cut as int),
            spec_split_words(body) =~= raws + spec_split_words(body.skip(pos as int)),
            r@.len() == raws.len(),
            forall|k: int| 0 <= k < raws.len() ==> r@[k]@ == spec_strip_comma(raws[k]),
        decreases cut - pos,
    {
        let ghost rest = body.skip(pos as int);
        if is_space_char(chars[pos]) {
            proof {
                assert(rest[0] == line@[pos as int]);
                assert(body.skip(pos as int + 1) =~= rest.skip(1));
            }
            pos = pos + 1;
        } else {
            proof {
                assert(rest[0] == line@[pos as int]);
            }
            let mut e: usize = pos;
            while e < cut && !is_space_char(chars[e])
                invariant
                    pos <= e <= cut <= n,
                    n == line@.len(),
                    chars@ == line@,
                    body == line@.take(cut as int),
                    forall|k: int| pos <= k < e ==> !spec_is_space(line@[k]),
                decreases cut - e,
            {
                e = e + 1;
            }
            proof {
                lemma_find_space(rest);
                assert forall|k: int| 0 <= k < e - pos implies !spec_is_space(rest[k]) by {
                    assert(rest[k] == line@[pos + k]);
                }
                if e < cut {
                    assert(rest[e - pos] == line@[e as int]);
                }
                assert(spec_find_space(rest) == e - pos);
            }
            let word_end = if e > pos && chars[e - 1] == ',' {
                e - 1
            } else {
                e
            };
            let word = line.substring_char(pos, word_end);
            r.push(word);
            proof {
                let raw = rest.take(e - pos);
                assert forall|k: int| 0 <= k < raw.len() implies raw[k] == line@[pos + k] by {}
                assert(word@ =~= spec_strip_comma(raw));
                assert(body.skip(e as int) =~= rest.skip(e - pos));
                assert(spec_split_words(rest) =~= seq![raw] + spec_split_words(rest.skip(e - pos)));
                raws = raws.push(raw);
            }
            pos = e;
        }
    }
    proof {
        assert(body.skip(pos as int) =~= Seq::<char>::empty());
        assert(spec_split_words(body) =~= raws);
        assert(spec_line_words(line@).len() == raws.len());
    }
    r
}

/// Whether two strings hold the same characters.
pub fn str_eq(a: &str, b: &str) -> (r: bool)
    ensures
        r == (a@ == b@),
{
    let n = a.unicode_len();
    if n != b.unicode_len() {
        return false;
    }
    let mut i: usize = 0;
    while i < n
        invariant
            i <= n,
            n == a@.len(),
            n == b@.len(),
            forall|k: int| 0 <= k < i ==> a@[k] == b@[k],
        decreases n - i,
    {
        if a.get_char(i) != b.get_char(i) {
            return false;
        }
        i = i + 1;
    }
    proof {
        assert(a@ =~= b@);
    }
    true
}

} // verus!
