//! Characters and strings: classes of characters, trimming, splitting, and
//! decimal numbers. Every function is specified over the sequence of
//! characters that a string holds.

use vstd::prelude::*;
use vstd::string::*;

verus! {

/// `String::push` appends the given character to the end of the string.
pub assume_specification[ String::push ](s: &mut String, c: char)
    ensures
        final(s)@ == old(s)@.push(c),
;

// ---------------------------------------------------------------------------
// Characters
// ---------------------------------------------------------------------------

/// The characters with the Unicode property `White_Space`.
pub open spec fn is_white(c: char) -> bool {
    ||| 0x09 <= c as u32 <= 0x0d
    ||| c as u32 == 0x20
    ||| c as u32 == 0x85
    ||| c as u32 == 0xa0
    ||| c as u32 == 0x1680
    ||| 0x2000 <= c as u32 <= 0x200a
    ||| c as u32 == 0x2028
    ||| c as u32 == 0x2029
    ||| c as u32 == 0x202f
    ||| c as u32 == 0x205f
    ||| c as u32 == 0x3000
}

pub open spec fn is_digit(c: char) -> bool {
    '0' <= c <= '9'
}

pub open spec fn is_alphanumeric(c: char) -> bool {
    is_digit(c) || 'a' <= c <= 'z' || 'A' <= c <= 'Z'
}

/// ASCII upper case letters become lower case; every other character stays.
pub open spec fn lower(c: char) -> char {
    if 'A' <= c <= 'Z' {
        (c as u32 + 32) as char
    } else {
        c
    }
}

/// ASCII lower case letters become upper case; every other character stays.
pub open spec fn upper(c: char) -> char {
    if 'a' <= c <= 'z' {
        (c as u32 - 32) as char
    } else {
        c
    }
}

pub open spec fn lower_all(s: Seq<char>) -> Seq<char> {
    s.map_values(|c: char| lower(c))
}

pub open spec fn upper_all(s: Seq<char>) -> Seq<char> {
    s.map_values(|c: char| upper(c))
}

/// Tests for the Unicode property `White_Space`.
pub fn char_is_white(c: char) -> (r: bool)
    ensures
        r == is_white(c),
{
    let n: u32 = c as u32;
    (0x09 <= n && n <= 0x0d) || n == 0x20 || n == 0x85 || n == 0xa0 || n == 0x1680 || (0x2000 <= n
        && n <= 0x200a) || n == 0x2028 || n == 0x2029 || n == 0x202f || n == 0x205f || n == 0x3000
}

pub fn char_is_digit(c: char) -> (r: bool)
    ensures
        r == is_digit(c),
{
    '0' <= c && c <= '9'
}

pub fn char_is_alphanumeric(c: char) -> (r: bool)
    ensures
        r == is_alphanumeric(c),
{
    ('0' <= c && c <= '9') || ('a' <= c && c <= 'z') || ('A' <= c && c <= 'Z')
}

pub fn char_lower(c: char) -> (r: char)
    ensures
        r == lower(c),
{
    if 'A' <= c && c <= 'Z' {
        let b: u8 = (c as u32 + 32) as u8;
        b as char
    } else {
        c
    }
}

pub fn char_upper(c: char) -> (r: char)
    ensures
        r == upper(c),
{
    if 'a' <= c && c <= 'z' {
        let b: u8 = (c as u32 - 32) as u8;
        b as char
    } else {
        c
    }
}

/// A class of characters that trimming removes.
#[derive(Clone, Copy, Debug, PartialEq, Eq)]
pub enum CharClass {
    /// Unicode white space.
    White,
    /// The path separators `\` and `/`.
    Separator,
    /// The line ends `\r` and `\n`.
    LineEnd,
    /// One character.
    One(char),
}

impl CharClass {
    pub open spec fn has(self, c: char) -> bool {
        match self {
            CharClass::White => is_white(c),
            CharClass::Separator => c == '\\' || c == '/',
            CharClass::LineEnd => c == '\r' || c == '\n',
            CharClass::One(d) => c == d,
        }
    }

    /// Tells whether `c` belongs to the class.
    pub fn contains(self, c: char) -> (r: bool)
        ensures
            r == self.has(c),
    {
        match self {
            CharClass::White => char_is_white(c),
            CharClass::Separator => c == '\\' || c == '/',
            CharClass::LineEnd => c == '\r' || c == '\n',
            CharClass::One(d) => c == d,
        }
    }
}

// ---------------------------------------------------------------------------
// Strings as sequences of characters
// ---------------------------------------------------------------------------

/// The characters of `s`, in order.
pub fn to_chars(s: &str) -> (out: Vec<char>)
    ensures
        out@ == s@,
{
    let mut out: Vec<char> = Vec::new();
    for c in it: s.chars()
        invariant
            out@ == s@.take(it.index() as int),
            it.seq() == s@,
    {
        out.push(c);
        assert(s@.take(it.index() + 1) =~= s@.take(it.index() as int).push(c));
    }
    assert(s@.take(s@.len() as int) =~= s@);
    out
}

/// The string that holds the characters `from..to` of `chars`.
pub fn range_text(chars: &[char], from: usize, to: usize) -> (out: String)
    requires
        from <= to <= chars@.len(),
    ensures
        out@ == chars@.subrange(from as int, to as int),
{
    let mut out = String::new();
    let mut i: usize = from;
    assert(out@ =~= chars@.subrange(from as int, from as int));
    while i < to
        invariant
            from <= i <= to <= chars@.len(),
            out@ == chars@.subrange(from as int, i as int),
        decreases to - i,
    {
        out.push(chars[i]);
        assert(chars@.subrange(from as int, i + 1) =~= chars@.subrange(from as int, i as int).push(
            chars@[i as int],
        ));
        i += 1;
    }
    out
}

/// Tells whether two strings hold the same characters.
pub fn same_text(a: &str, b: &str) -> (r: bool)
    ensures
        r == (a@ == b@),
{
    a.to_owned() == b.to_owned()
}

/// The strings of a list, as character sequences.
pub open spec fn texts(list: Seq<String>) -> Seq<Seq<char>> {
    list.map_values(|s: String| s@)
}

/// An optional string, as an optional character sequence.
pub open spec fn opt_text(s: Option<String>) -> Option<Seq<char>> {
    match s {
        Some(t) => Some(t@),
        None => None,
    }
}

/// Copies an optional string.
pub fn copy_opt(s: &Option<String>) -> (r: Option<String>)
    ensures
        r == *s,
{
    match s {
        Some(t) => Some(t.clone()),
        None => None,
    }
}

/// Copies a list of strings.
pub fn copy_list(list: &Vec<String>) -> (r: Vec<String>)
    ensures
        r@ == list@,
{
    let mut out: Vec<String> = Vec::new();
    let mut i: usize = 0;
    while i < list.len()
        invariant
            i <= list@.len(),
            out@ == list@.take(i as int),
        decreases list@.len() - i,
    {
        out.push(list[i].clone());
        assert(list@.take(i + 1) =~= list@.take(i as int).push(list@[i as int]));
        i += 1;
    }
    assert(list@.take(i as int) =~= list@);
    out
}

/// Tells whether `list` holds the string `s`.
pub fn list_has(list: &Vec<String>, s: &str) -> (r: bool)
    ensures
        r == texts(list@).contains(s@),
{
    let mut i: usize = 0;
    while i < list.len()
        invariant
            i <= list@.len(),
            forall|j: int| 0 <= j < i ==> texts(list@)[j] != s@,
        decreases list@.len() - i,
    {
        if same_text(list[i].as_str(), s) {
            assert(texts(list@)[i as int] == s@);
            return true;
        }
        i += 1;
    }
    false
}

/// The concatenation of `a`, `b` and `c`.
pub fn join3(a: &str, b: &str, c: &str) -> (r: String)
    ensures
        r@ == a@ + b@ + c@,
{
    let mut out = a.to_owned();
    out.append(b);
    out.append(c);
    out
}

/// The concatenation of `a` and `b`.
pub fn join2(a: &str, b: &str) -> (r: String)
    ensures
        r@ == a@ + b@,
{
    let mut out = a.to_owned();
    out.append(b);
    out
}

/// `s` in ASCII lower case.
pub fn text_lower(s: &str) -> (r: String)
    ensures
        r@ == lower_all(s@),
{
    let chars = to_chars(s);
    let mut out = String::new();
    let mut i: usize = 0;
    while i < chars.len()
        invariant
            i <= chars@.len(),
            out@ == lower_all(chars@.take(i as int)),
        decreases chars@.len() - i,
    {
        out.push(char_lower(chars[i]));
        assert(lower_all(chars@.take(i + 1)) =~= lower_all(chars@.take(i as int)).push(
            lower(chars@[i as int]),
        ));
        i += 1;
    }
    assert(chars@.take(i as int) =~= chars@);
    out
}

/// `s` in ASCII upper case.
pub fn text_upper(s: &str) -> (r: String)
    ensures
        r@ == upper_all(s@),
{
    let chars = to_chars(s);
    let mut out = String::new();
    let mut i: usize = 0;
    while i < chars.len()
        invariant
            i <= chars@.len(),
            out@ == upper_all(chars@.take(i as int)),
        decreases chars@.len() - i,
    {
        out.push(char_upper(chars[i]));
        assert(upper_all(chars@.take(i + 1)) =~= upper_all(chars@.take(i as int)).push(
            upper(chars@[i as int]),
        ));
        i += 1;
    }
    assert(chars@.take(i as int) =~= chars@);
    out
}

// ---------------------------------------------------------------------------
// Trimming
// ---------------------------------------------------------------------------

/// `s` without the characters of `class` at its end.
pub open spec fn trim_end(s: Seq<char>, class: CharClass) -> Seq<char>
    decreases s.len(),
{
    if s.len() > 0 && class.has(s.last()) {
        trim_end(s.drop_last(), class)
    } else {
        s
    }
}

/// `s` without the characters of `class` at its start.
pub open spec fn trim_start(s: Seq<char>, class: CharClass) -> Seq<char>
    decreases s.len(),
{
    if s.len() > 0 && class.has(s[0]) {
        trim_start(s.drop_first(), class)
    } else {
        s
    }
}

/// `s` without white space at either end.
pub open spec fn trim(s: Seq<char>) -> Seq<char> {
    trim_end(trim_start(s, CharClass::White), CharClass::White)
}

/// `s` without the characters of `class` at its end.
pub fn text_trim_end(s: &str, class: CharClass) -> (r: String)
    ensures
        r@ == trim_end(s@, class),
{
    let chars = to_chars(s);
    let mut end: usize = chars.len();
    assert(chars@.take(end as int) =~= chars@);
    while end > 0 && class.contains(chars[end - 1])
        invariant
            end <= chars@.len(),
            trim_end(chars@, class) == trim_end(chars@.take(end as int), class),
        decreases end,
    {
        assert(chars@.take(end as int).drop_last() =~= chars@.take(end - 1));
        end -= 1;
    }
    let r = range_text(chars.as_slice(), 0, end);
    assert(chars@.subrange(0, end as int) =~= chars@.take(end as int));
    r
}

/// `s` without the characters of `class` at its start.
pub fn text_trim_start(s: &str, class: CharClass) -> (r: String)
    ensures
        r@ == trim_start(s@, class),
{
    let chars = to_chars(s);
    let mut start: usize = 0;
    assert(chars@.skip(0) =~= chars@);
    while start < chars.len() && class.contains(chars[start])
        invariant
            start <= chars@.len(),
            trim_start(chars@, class) == trim_start(chars@.skip(start as int), class),
        decreases chars@.len() - start,
    {
        assert(chars@.skip(start as int).drop_first() =~= chars@.skip(start + 1));
        start += 1;
    }
    let r = range_text(chars.as_slice(), start, chars.len());
    assert(chars@.subrange(start as int, chars@.len() as int) =~= chars@.skip(start as int));
    r
}

/// `s` without white space at either end.
pub fn text_trim(s: &str) -> (r: String)
    ensures
        r@ == trim(s@),
{
    let t = text_trim_start(s, CharClass::White);
    text_trim_end(t.as_str(), CharClass::White)
}

/// Trimming an end removes only characters of the class, and all of them.
pub proof fn lemma_trim_end(s: Seq<char>, class: CharClass)
    ensures
        trim_end(s, class).is_prefix_of(s),
        trim_end(s, class).len() > 0 ==> !class.has(trim_end(s, class).last()),
        forall|i: int| trim_end(s, class).len() <= i < s.len() ==> class.has(#[trigger] s[i]),
    decreases s.len(),
{
    if s.len() > 0 && class.has(s.last()) {
        lemma_trim_end(s.drop_last(), class);
        let t = trim_end(s.drop_last(), class);
        assert forall|i: int| t.len() <= i < s.len() implies class.has(#[trigger] s[i]) by {
            if i < s.len() - 1 {
                assert(s.drop_last()[i] == s[i]);
            }
        }
    }
}


// ---------------------------------------------------------------------------
// Searching and splitting
// ---------------------------------------------------------------------------

/// The parts of `s` before and after the first `c`.
pub open spec fn split_first(s: Seq<char>, c: char) -> Option<(Seq<char>, Seq<char>)>
    decreases s.len(),
{
    if s.len() == 0 {
        None
    } else if s[0] == c {
        Some((Seq::<char>::empty(), s.drop_first()))
    } else {
        match split_first(s.drop_first(), c) {
            Some((a, b)) => Some((seq![s[0]] + a, b)),
            None => None,
        }
    }
}

/// What `split_first` means: the first part holds no `c`, and the two parts
/// with `c` between them are the whole.
pub proof fn lemma_split_first(s: Seq<char>, c: char)
    ensures
        split_first(s, c) is None <==> !s.contains(c),
        split_first(s, c) matches Some((a, b)) ==> !a.contains(c) && s == a.push(c) + b,
    decreases s.len(),
{
    if s.len() > 0 {
        lemma_split_first(s.drop_first(), c);
        let rest = s.drop_first();
        if s[0] == c {
            assert(s =~= Seq::<char>::empty().push(c) + rest);
        } else {
            match split_first(rest, c) {
                Some((a, b)) => {
                    let a2 = seq![s[0]] + a;
                    assert(s =~= a2.push(c) + b) by {
                        assert(s =~= seq![s[0]] + rest);
                    }
                    assert(!a2.contains(c)) by {
                        if a2.contains(c) {
                            let i = choose|i: int| 0 <= i < a2.len() && a2[i] == c;
                            if i > 0 {
                                assert(a[i - 1] == c);
                            }
                        }
                    }
                    assert(s[a2.len() as int] == c);
                },
                None => {
                    if s.contains(c) {
                        let i = choose|i: int| 0 <= i < s.len() && s[i] == c;
                        assert(rest[i - 1] == c);
                    }
                },
            }
        }
    }
}

/// A text of the form `a c b`, where `a` holds no `c`, splits into `a` and `b`.
pub proof fn lemma_split_first_unique(a: Seq<char>, c: char, b: Seq<char>)
    requires
        !a.contains(c),
    ensures
        split_first(a.push(c) + b, c) == Some((a, b)),
    decreases a.len(),
{
    let s = a.push(c) + b;
    if a.len() == 0 {
        assert(s.drop_first() =~= b);
        assert(a =~= Seq::<char>::empty());
    } else {
        assert(a.contains(a[0]));
        assert(s[0] == a[0]);
        assert(!a.drop_first().contains(c)) by {
            if a.drop_first().contains(c) {
                let i = choose|i: int| 0 <= i < a.drop_first().len() && a.drop_first()[i] == c;
                assert(a[i + 1] == c);
            }
        }
        lemma_split_first_unique(a.drop_first(), c, b);
        assert(s.drop_first() =~= a.drop_first().push(c) + b);
        assert(seq![a[0]] + a.drop_first() =~= a);
    }
}

/// The position of the first `c` in `chars` at or after `from`, or the length.
pub fn position_from(chars: &[char], from: usize, c: char) -> (r: usize)
    requires
        from <= chars@.len(),
    ensures
        from <= r <= chars@.len(),
        r < chars@.len() ==> chars@[r as int] == c,
        forall|j: int| from <= j < r ==> chars@[j] != c,
{
    let mut i: usize = from;
    while i < chars.len() && chars[i] != c
        invariant
            from <= i <= chars@.len(),
            forall|j: int| from <= j < i ==> chars@[j] != c,
        decreases chars@.len() - i,
    {
        i += 1;
    }
    i
}

/// The parts of `s` before and after the first `c`.
pub fn text_split_first(s: &str, c: char) -> (r: Option<(String, String)>)
    ensures
        match r {
            Some((a, b)) => split_first(s@, c) == Some((a@, b@)),
            None => split_first(s@, c) is None,
        },
{
    let chars = to_chars(s);
    let i = position_from(chars.as_slice(), 0, c);
    proof {
        lemma_split_first(s@, c);
    }
    if i < chars.len() {
        let a = range_text(chars.as_slice(), 0, i);
        let b = range_text(chars.as_slice(), i + 1, chars.len());
        proof {
            assert(!a@.contains(c));
            assert(s@ =~= a@.push(c) + b@);
            lemma_split_first_unique(a@, c, b@);
        }
        Some((a, b))
    } else {
        None
    }
}

/// The parts of `s` before and after the last `c`.
pub open spec fn split_last(s: Seq<char>, c: char) -> Option<(Seq<char>, Seq<char>)>
    decreases s.len(),
{
    if s.len() == 0 {
        None
    } else if s.last() == c {
        Some((s.drop_last(), Seq::<char>::empty()))
    } else {
        match split_last(s.drop_last(), c) {
            Some((a, b)) => Some((a, b.push(s.last()))),
            None => None,
        }
    }
}

/// A text of the form `a c b`, where `b` holds no `c`, splits into `a` and `b`.
pub proof fn lemma_split_last_unique(a: Seq<char>, c: char, b: Seq<char>)
    requires
        !b.contains(c),
    ensures
        split_last(a.push(c) + b, c) == Some((a, b)),
    decreases b.len(),
{
    let s = a.push(c) + b;
    if b.len() == 0 {
        assert(s.drop_last() =~= a);
        assert(b =~= Seq::<char>::empty());
    } else {
        assert(b.contains(b.last()));
        assert(!b.drop_last().contains(c)) by {
            if b.drop_last().contains(c) {
                let i = choose|i: int| 0 <= i < b.drop_last().len() && b.drop_last()[i] == c;
                assert(b[i] == c);
            }
        }
        lemma_split_last_unique(a, c, b.drop_last());
        assert(s.drop_last() =~= a.push(c) + b.drop_last());
        assert(b.drop_last().push(b.last()) =~= b);
    }
}

/// A text without `c` has no parts around a last `c`.
pub proof fn lemma_split_last_none(s: Seq<char>, c: char)
    requires
        !s.contains(c),
    ensures
        split_last(s, c) is None,
    decreases s.len(),
{
    if s.len() > 0 {
        assert(s.contains(s.last()));
        assert(!s.drop_last().contains(c)) by {
            if s.drop_last().contains(c) {
                let i = choose|i: int| 0 <= i < s.drop_last().len() && s.drop_last()[i] == c;
                assert(s[i] == c);
            }
        }
        lemma_split_last_none(s.drop_last(), c);
    }
}

/// The parts of `s` before and after the last `c`.
pub fn text_split_last(s: &str, c: char) -> (r: Option<(String, String)>)
    ensures
        match r {
            Some((a, b)) => split_last(s@, c) == Some((a@, b@)),
            None => split_last(s@, c) is None,
        },
{
    let chars = to_chars(s);
    let mut i: usize = chars.len();
    while i > 0 && chars[i - 1] != c
        invariant
            i <= chars@.len(),
            forall|j: int| i <= j < chars@.len() ==> chars@[j] != c,
        decreases i,
    {
        i -= 1;
    }
    if i > 0 {
        let a = range_text(chars.as_slice(), 0, i - 1);
        let b = range_text(chars.as_slice(), i, chars.len());
        proof {
            assert(!b@.contains(c));
            assert(s@ =~= a@.push(c) + b@);
            lemma_split_last_unique(a@, c, b@);
        }
        Some((a, b))
    } else {
        proof {
            lemma_split_last_none(s@, c);
        }
        None
    }
}

/// The pieces of `s` between the occurrences of `c`; at least one.
pub open spec fn pieces(s: Seq<char>, c: char) -> Seq<Seq<char>>
    decreases s.len(),
{
    match split_first(s, c) {
        Some((a, b)) => if b.len() < s.len() {
            seq![a] + pieces(b, c)
        } else {
            seq![s]
        },
        None => seq![s],
    }
}

/// The pieces of `s` between the occurrences of `c`.
pub fn text_pieces(s: &str, c: char) -> (r: Vec<String>)
    ensures
        texts(r@) == pieces(s@, c),
        r@.len() > 0,
{
    let mut out: Vec<String> = Vec::new();
    let mut rest = s.to_owned();
    assert(texts(out@) + pieces(rest@, c) =~= pieces(s@, c));
    loop
        invariant
            texts(out@) + pieces(rest@, c) == pieces(s@, c),
        decreases rest@.len(),
    {
        proof {
            lemma_split_first(rest@, c);
        }
        let next = text_split_first(rest.as_str(), c);
        let ghost before = out@;
        match next {
            Some((a, b)) => {
                out.push(a);
                proof {
                    assert(texts(out@) =~= texts(before).push(a@));
                    assert(texts(out@) + pieces(b@, c) =~= texts(before) + pieces(rest@, c));
                }
                rest = b;
            },
            None => {
                out.push(rest);
                proof {
                    assert(texts(out@) =~= texts(before) + pieces(rest@, c));
                }
                return out;
            },
        }
    }
}

/// The lines of `s`: the pieces between line feeds, each without one trailing
/// carriage return where a line feed follows; an empty last piece is no line.
pub open spec fn lines(s: Seq<char>) -> Seq<Seq<char>>
    decreases s.len(),
{
    match split_first(s, '\n') {
        Some((a, b)) => if b.len() < s.len() {
            seq![without_return(a)] + lines(b)
        } else {
            Seq::empty()
        },
        None => if s.len() == 0 {
            Seq::empty()
        } else {
            seq![s]
        },
    }
}

/// `s` without one trailing carriage return.
pub open spec fn without_return(s: Seq<char>) -> Seq<char> {
    if s.len() > 0 && s.last() == '\r' {
        s.drop_last()
    } else {
        s
    }
}

/// The lines of `s`, without their line ends.
pub fn text_lines(s: &str) -> (r: Vec<String>)
    ensures
        texts(r@) == lines(s@),
{
    let mut out: Vec<String> = Vec::new();
    let mut rest = s.to_owned();
    assert(texts(out@) + lines(rest@) =~= lines(s@));
    loop
        invariant
            texts(out@) + lines(rest@) == lines(s@),
        decreases rest@.len(),
    {
        proof {
            lemma_split_first(rest@, '\n');
        }
        let next = text_split_first(rest.as_str(), '\n');
        let ghost before = out@;
        match next {
            Some((a, b)) => {
                let line = text_without_return(a.as_str());
                out.push(line);
                proof {
                    assert(texts(out@) =~= texts(before).push(line@));
                    assert(texts(out@) + lines(b@) =~= texts(before) + lines(rest@));
                }
                rest = b;
            },
            None => {
                if rest.as_str().is_empty() {
                    proof {
                        assert(texts(out@) =~= texts(before) + lines(rest@));
                    }
                    return out;
                }
                out.push(rest);
                proof {
                    assert(texts(out@) =~= texts(before) + lines(rest@));
                }
                return out;
            },
        }
    }
}

/// `s` without one trailing carriage return.
pub fn text_without_return(s: &str) -> (r: String)
    ensures
        r@ == without_return(s@),
{
    let chars = to_chars(s);
    let n = chars.len();
    if n > 0 && chars[n - 1] == '\r' {
        let r = range_text(chars.as_slice(), 0, n - 1);
        assert(r@ =~= s@.drop_last());
        r
    } else {
        s.to_owned()
    }
}

/// The words of `s`: its longest runs without white space.
pub open spec fn words(s: Seq<char>) -> Seq<Seq<char>>
    decreases s.len(),
{
    let t = trim_start(s, CharClass::White);
    let n = run_length(t);
    if t.len() <= s.len() && 0 < n <= t.len() {
        seq![t.take(n as int)] + words(t.skip(n as int))
    } else {
        Seq::empty()
    }
}

/// How many characters stand before the first white space of `s`.
pub open spec fn run_length(s: Seq<char>) -> nat
    decreases s.len(),
{
    if s.len() == 0 || is_white(s[0]) {
        0
    } else {
        1 + run_length(s.drop_first())
    }
}

proof fn lemma_trim_start_len(s: Seq<char>, class: CharClass)
    ensures
        trim_start(s, class).len() <= s.len(),
        trim_start(s, class).len() > 0 ==> !class.has(trim_start(s, class)[0]),
    decreases s.len(),
{
    if s.len() > 0 && class.has(s[0]) {
        lemma_trim_start_len(s.drop_first(), class);
    }
}

proof fn lemma_run_length(s: Seq<char>, n: int)
    requires
        0 <= n <= s.len(),
        forall|i: int| 0 <= i < n ==> !is_white(#[trigger] s[i]),
        n < s.len() ==> is_white(s[n]),
    ensures
        run_length(s) == n,
    decreases n,
{
    if n > 0 {
        assert(!is_white(s[0]));
        let t = s.drop_first();
        assert forall|i: int| 0 <= i < n - 1 implies !is_white(#[trigger] t[i]) by {
            assert(t[i] == s[i + 1]);
        }
        lemma_run_length(t, n - 1);
    }
}

/// The words of `s`, split at white space.
pub fn text_words(s: &str) -> (r: Vec<String>)
    ensures
        texts(r@) == words(s@),
{
    let mut out: Vec<String> = Vec::new();
    let mut rest = s.to_owned();
    assert(texts(out@) + words(rest@) =~= words(s@));
    loop
        invariant
            texts(out@) + words(rest@) == words(s@),
        decreases rest@.len(),
    {
        proof {
            lemma_trim_start_len(rest@, CharClass::White);
        }
        let t = text_trim_start(rest.as_str(), CharClass::White);
        let chars = to_chars(t.as_str());
        let mut n: usize = 0;
        while n < chars.len() && !char_is_white(chars[n])
            invariant
                n <= chars@.len(),
                forall|i: int| 0 <= i < n ==> !is_white(#[trigger] chars@[i]),
            decreases chars@.len() - n,
        {
            n += 1;
        }
        proof {
            lemma_run_length(t@, n as int);
        }
        let ghost before = out@;
        if n == 0 {
            assert(texts(out@) =~= texts(before) + words(rest@));
            return out;
        }
        let word = range_text(chars.as_slice(), 0, n);
        let tail = range_text(chars.as_slice(), n, chars.len());
        out.push(word);
        proof {
            assert(word@ =~= t@.take(n as int));
            assert(tail@ =~= t@.skip(n as int));
            assert(texts(out@) =~= texts(before).push(word@));
            assert(texts(out@) + words(tail@) =~= texts(before) + words(rest@));
        }
        rest = tail;
    }
}

/// What follows `prefix` in `s`, where `s` starts with it.
pub open spec fn strip_prefix(s: Seq<char>, prefix: Seq<char>) -> Option<Seq<char>> {
    if prefix.is_prefix_of(s) {
        Some(s.skip(prefix.len() as int))
    } else {
        None
    }
}

/// Tells whether the characters of `p` stand in `s` from position `at` on.
pub open spec fn occurs_at(s: Seq<char>, p: Seq<char>, at: int) -> bool {
    &&& 0 <= at
    &&& at + p.len() <= s.len()
    &&& s.subrange(at, at + p.len()) == p
}

fn matches_at(chars: &[char], pattern: &[char], at: usize) -> (r: bool)
    requires
        at <= chars@.len(),
    ensures
        r == occurs_at(chars@, pattern@, at as int),
{
    if chars.len() - at < pattern.len() {
        return false;
    }
    let mut i: usize = 0;
    while i < pattern.len()
        invariant
            i <= pattern@.len(),
            at + pattern@.len() <= chars@.len() <= usize::MAX,
            forall|j: int| 0 <= j < i ==> chars@[at + j] == pattern@[j],
        decreases pattern@.len() - i,
    {
        if chars[at + i] != pattern[i] {
            assert(chars@.subrange(at as int, at + pattern@.len())[i as int] == chars@[at + i]);
            return false;
        }
        i += 1;
    }
    assert(chars@.subrange(at as int, at + pattern@.len()) =~= pattern@);
    true
}

/// Tells whether `s` starts with `prefix`.
pub fn text_starts_with(s: &str, prefix: &str) -> (r: bool)
    ensures
        r == prefix@.is_prefix_of(s@),
{
    let chars = to_chars(s);
    let pattern = to_chars(prefix);
    let r = matches_at(chars.as_slice(), pattern.as_slice(), 0);
    proof {
        if prefix@.len() <= s@.len() {
            assert(s@.subrange(0, prefix@.len() as int) =~= s@.take(prefix@.len() as int));
        }
    }
    r
}

/// What follows `prefix` in `s`, where `s` starts with it.
pub fn text_strip_prefix(s: &str, prefix: &str) -> (r: Option<String>)
    ensures
        match r {
            Some(t) => strip_prefix(s@, prefix@) == Some(t@),
            None => strip_prefix(s@, prefix@) is None,
        },
{
    if text_starts_with(s, prefix) {
        let chars = to_chars(s);
        let pattern = to_chars(prefix);
        let t = range_text(chars.as_slice(), pattern.len(), chars.len());
        assert(t@ =~= s@.skip(prefix@.len() as int));
        Some(t)
    } else {
        None
    }
}

/// The least position at which `p` occurs in `s`, if any.
pub open spec fn find(s: Seq<char>, p: Seq<char>) -> Option<int> {
    if exists|i: int| occurs_at(s, p, i) {
        Some(choose|i: int| first_occurrence(s, p, i))
    } else {
        None
    }
}

/// `p` occurs in `s` at `at` and nowhere before.
pub open spec fn first_occurrence(s: Seq<char>, p: Seq<char>, at: int) -> bool {
    &&& occurs_at(s, p, at)
    &&& forall|j: int| 0 <= j < at ==> !occurs_at(s, p, j)
}

/// There is one least position.
pub proof fn lemma_find(s: Seq<char>, p: Seq<char>, at: int)
    requires
        first_occurrence(s, p, at),
    ensures
        find(s, p) == Some(at),
{
    let c = choose|i: int| first_occurrence(s, p, i);
    assert(first_occurrence(s, p, c));
    if c < at {
        assert(!occurs_at(s, p, c));
    }
    if at < c {
        assert(!occurs_at(s, p, at));
    }
}

/// The least position, counted in characters, at which `p` occurs in `s`.
pub fn text_find(s: &str, p: &str) -> (r: Option<usize>)
    ensures
        match r {
            Some(i) => find(s@, p@) == Some(i as int) && first_occurrence(s@, p@, i as int),
            None => find(s@, p@) is None,
        },
{
    let chars = to_chars(s);
    let pattern = to_chars(p);
    let mut i: usize = 0;
    loop
        invariant
            i <= chars@.len(),
            chars@ == s@,
            pattern@ == p@,
            forall|j: int| 0 <= j < i ==> !occurs_at(s@, p@, j),
        decreases chars@.len() - i,
    {
        if matches_at(chars.as_slice(), pattern.as_slice(), i) {
            proof {
                assert(first_occurrence(s@, p@, i as int));
                lemma_find(s@, p@, i as int);
            }
            return Some(i);
        }
        if i >= chars.len() {
            return None;
        }
        i += 1;
    }
}

// ---------------------------------------------------------------------------
// Decimal numbers
// ---------------------------------------------------------------------------

/// The character of the decimal digit `d`.
pub open spec fn digit(d: nat) -> char {
    (0x30 + d) as char
}

/// `n` in decimal notation, without leading zeros.
pub open spec fn decimal(n: nat) -> Seq<char>
    decreases n,
{
    if n < 10 {
        seq![digit(n)]
    } else {
        decimal(n / 10).push(digit(n % 10))
    }
}

/// `n` in decimal notation.
pub fn decimal_text(n: u64) -> (r: String)
    ensures
        r@ == decimal(n as nat),
    decreases n,
{
    let d: u8 = (n % 10) as u8;
    let c: char = (0x30u8 + d) as char;
    if n < 10 {
        let mut out = String::new();
        out.push(c);
        assert(out@ =~= seq![digit(n as nat)]);
        out
    } else {
        let mut out = decimal_text(n / 10);
        out.push(c);
        out
    }
}

/// The number that the decimal digits of `s` denote.
pub open spec fn number(s: Seq<char>) -> nat
    decreases s.len(),
{
    if s.len() == 0 {
        0
    } else {
        number(s.drop_last()) * 10 + digit_value(s.last())
    }
}

/// The value of a decimal digit.
pub open spec fn digit_value(c: char) -> nat {
    (c as u32 - 0x30) as nat
}

pub open spec fn all_digits(s: Seq<char>) -> bool {
    forall|i: int| 0 <= i < s.len() ==> is_digit(#[trigger] s[i])
}

/// The value of `s` read as an unsigned number of at most `max`: decimal
/// digits, at least one, after an optional plus sign.
pub open spec fn parse_number(s: Seq<char>, max: nat) -> Option<nat> {
    let t = without_plus(s);
    if t.len() > 0 && all_digits(t) && number(t) <= max {
        Some(number(t))
    } else {
        None
    }
}

/// `s` without a leading plus sign.
pub open spec fn without_plus(s: Seq<char>) -> Seq<char> {
    if s.len() > 0 && s[0] == '+' {
        s.drop_first()
    } else {
        s
    }
}

proof fn lemma_number_grows(s: Seq<char>, n: int)
    requires
        0 <= n <= s.len(),
    ensures
        number(s.take(n)) <= number(s),
    decreases s.len() - n,
{
    if n < s.len() {
        assert(s.take(n + 1).drop_last() =~= s.take(n));
        lemma_number_grows(s, n + 1);
    } else {
        assert(s.take(n) =~= s);
    }
}

/// Reads a port number, as `u16` is read from a string.
pub fn parse_port(s: &str) -> (r: Option<u16>)
    ensures
        match r {
            Some(n) => parse_number(s@, 65535) == Some(n as nat),
            None => parse_number(s@, 65535) is None,
        },
{
    let chars = to_chars(s);
    let from: usize = if chars.len() > 0 && chars[0] == '+' {
        1
    } else {
        0
    };
    let ghost t = s@.skip(from as int);
    proof {
        assert(t =~= without_plus(s@));
    }
    if from >= chars.len() {
        return None;
    }
    let mut value: u32 = 0;
    let mut i: usize = from;
    assert(t.take(0) =~= Seq::<char>::empty());
    while i < chars.len()
        invariant
            from <= i <= chars@.len(),
            chars@ == s@,
            t == s@.skip(from as int),
            t == without_plus(s@),
            value == number(t.take(i - from)),
            value <= 65535,
            all_digits(t.take(i - from)),
        decreases chars@.len() - i,
    {
        assert(t[i - from] == chars@[i as int]);
        if !char_is_digit(chars[i]) {
            assert(!all_digits(t));
            return None;
        }
        let next: u32 = value * 10 + (chars[i] as u32 - 0x30);
        proof {
            assert(t.take(i + 1 - from).drop_last() =~= t.take(i - from));
            assert(next == number(t.take(i + 1 - from)));
        }
        if next > 65535 {
            proof {
                lemma_number_grows(t, i + 1 - from);
            }
            return None;
        }
        proof {
            let grown = t.take(i + 1 - from);
            assert forall|k: int| 0 <= k < grown.len() implies is_digit(#[trigger] grown[k]) by {
                if k < i - from {
                    assert(t.take(i - from)[k] == grown[k]);
                }
            }
        }
        value = next;
        i += 1;
    }
    assert(t.take(i - from) =~= t);
    Some(value as u16)
}

// ---------------------------------------------------------------------------
// Bytes
// ---------------------------------------------------------------------------

/// `String::from_utf8`: the characters that bytes encode, or the bytes as they
/// were where they are no UTF-8.
#[verifier::external_body]
pub(crate) fn text_of_bytes(bytes: Vec<u8>) -> (r: Result<String, Vec<u8>>)
    ensures
        match r {
            Ok(text) => vstd::utf8::valid_utf8(bytes@) && vstd::utf8::encode_utf8(text@) == bytes@,
            Err(back) => !vstd::utf8::valid_utf8(bytes@) && back@ == bytes@,
        },
{
    String::from_utf8(bytes).map_err(|error| error.into_bytes())
}

/// The characters that bytes encode, where they encode any.
pub open spec fn decoded(bytes: Seq<u8>) -> Option<Seq<char>> {
    if vstd::utf8::valid_utf8(bytes) {
        Some(vstd::utf8::decode_utf8(bytes))
    } else {
        None
    }
}

/// The text that bytes encode, or the bytes as they were.
pub fn decode_text(bytes: Vec<u8>) -> (r: Result<String, Vec<u8>>)
    ensures
        match r {
            Ok(text) => decoded(bytes@) == Some(text@),
            Err(back) => decoded(bytes@) is None && back@ == bytes@,
        },
{
    match text_of_bytes(bytes) {
        Ok(text) => {
            proof {
                vstd::utf8::encode_utf8_decode_utf8(text@);
            }
            Ok(text)
        },
        Err(back) => Err(back),
    }
}

// ---------------------------------------------------------------------------
// Order
// ---------------------------------------------------------------------------

/// `a` does not come after `b` in the order of code points.
pub open spec fn ordered(a: Seq<char>, b: Seq<char>) -> bool
    decreases a.len(),
{
    if a.len() == 0 {
        true
    } else if b.len() == 0 {
        false
    } else if a[0] == b[0] {
        ordered(a.drop_first(), b.drop_first())
    } else {
        a[0] < b[0]
    }
}

/// Each text of a list is in order with those after it.
pub open spec fn sorted(list: Seq<Seq<char>>) -> bool {
    forall|i: int, j: int|
        0 <= i <= j < list.len() ==> ordered(#[trigger] list[i], #[trigger] list[j])
}

proof fn lemma_ordered_reflexive(a: Seq<char>)
    ensures
        ordered(a, a),
    decreases a.len(),
{
    if a.len() > 0 {
        lemma_ordered_reflexive(a.drop_first());
    }
}

proof fn lemma_ordered_total(a: Seq<char>, b: Seq<char>)
    ensures
        ordered(a, b) || ordered(b, a),
    decreases a.len(),
{
    if a.len() > 0 && b.len() > 0 && a[0] == b[0] {
        lemma_ordered_total(a.drop_first(), b.drop_first());
    }
}

proof fn lemma_ordered_transitive(a: Seq<char>, b: Seq<char>, c: Seq<char>)
    requires
        ordered(a, b),
        ordered(b, c),
    ensures
        ordered(a, c),
    decreases a.len(),
{
    if a.len() > 0 && b.len() > 0 && c.len() > 0 && a[0] == b[0] && b[0] == c[0] {
        lemma_ordered_transitive(a.drop_first(), b.drop_first(), c.drop_first());
    }
}

/// Tells whether `a` does not come after `b`.
pub fn text_ordered(a: &str, b: &str) -> (r: bool)
    ensures
        r == ordered(a@, b@),
{
    let left = to_chars(a);
    let right = to_chars(b);
    let mut i: usize = 0;
    assert(a@.skip(0) =~= a@ && b@.skip(0) =~= b@);
    while i < left.len() && i < right.len() && left[i] == right[i]
        invariant
            i <= left@.len(),
            i <= right@.len(),
            left@ == a@,
            right@ == b@,
            ordered(a@, b@) == ordered(a@.skip(i as int), b@.skip(i as int)),
        decreases left@.len() - i,
    {
        assert(a@.skip(i as int).drop_first() =~= a@.skip(i + 1));
        assert(b@.skip(i as int).drop_first() =~= b@.skip(i + 1));
        i += 1;
    }
    if i >= left.len() {
        true
    } else if i >= right.len() {
        false
    } else {
        left[i] < right[i]
    }
}

/// Puts a text into a sorted list, behind those that do not come after it.
fn insert_sorted(list: &mut Vec<String>, text: String)
    requires
        sorted(texts(old(list)@)),
    ensures
        sorted(texts(final(list)@)),
        texts(final(list)@).to_multiset() == texts(old(list)@).to_multiset().insert(text@),
{
    let ghost before = texts(list@);
    let mut at: usize = list.len();
    while at > 0 && !text_ordered(list[at - 1].as_str(), text.as_str())
        invariant
            at <= list@.len(),
            before == texts(list@),
            sorted(before),
            forall|k: int| at <= k < before.len() ==> ordered(text@, #[trigger] before[k]),
        decreases at,
    {
        proof {
            assert(before[at - 1] == list@[at - 1]@);
            lemma_ordered_total(text@, before[at - 1]);
        }
        at -= 1;
    }
    let ghost old_list = list@;
    list.insert(at, text);
    proof {
        let after = texts(list@);
        assert(after =~= before.insert(at as int, text@));
        before.to_multiset_ensures();
        before.insert_ensures(at as int, text@);
        if at > 0 {
            assert(before[at - 1] == old_list[at - 1]@);
        }
        assert forall|i: int, j: int| 0 <= i <= j < after.len() implies ordered(
            #[trigger] after[i],
            #[trigger] after[j],
        ) by {
            if i < at && j < at {
                assert(after[i] == before[i] && after[j] == before[j]);
            } else if i < at && j == at {
                assert(after[i] == before[i]);
                lemma_ordered_transitive(before[i], before[at - 1], text@);
            } else if i < at {
                assert(after[i] == before[i] && after[j] == before[j - 1]);
            } else if i == at && j == at {
                lemma_ordered_reflexive(text@);
            } else if i == at {
                assert(after[j] == before[j - 1]);
            } else {
                assert(after[i] == before[i - 1] && after[j] == before[j - 1]);
            }
        }
        vstd::seq_lib::to_multiset_insert(before, at as int, text@);
    }
}

/// The same texts in the order of code points.
pub fn sort_texts(list: Vec<String>) -> (r: Vec<String>)
    ensures
        sorted(texts(r@)),
        texts(r@).to_multiset() == texts(list@).to_multiset(),
{
    let mut out: Vec<String> = Vec::new();
    let ghost all = texts(list@);
    let mut i: usize = 0;
    assert(texts(out@) =~= all.take(0));
    while i < list.len()
        invariant
            i <= list@.len(),
            all == texts(list@),
            sorted(texts(out@)),
            texts(out@).to_multiset() == all.take(i as int).to_multiset(),
        decreases list@.len() - i,
    {
        insert_sorted(&mut out, list[i].clone());
        proof {
            assert(all.take(i + 1) =~= all.take(i as int).push(all[i as int]));
            all.take(i as int).to_multiset_ensures();
        }
        i += 1;
    }
    assert(all.take(i as int) =~= all);
    out
}

/// A number is read as it is written.
pub proof fn law_numbers_are_read_as_written(n: nat)
    ensures
        decimal(n).len() > 0,
        all_digits(decimal(n)),
        number(decimal(n)) == n,
        decimal(n)[0] == '0' ==> n == 0,
    decreases n,
{
    if n >= 10 {
        law_numbers_are_read_as_written(n / 10);
        let rest = decimal(n / 10);
        assert(decimal(n) == rest.push(digit(n % 10)));
        assert(decimal(n).drop_last() =~= rest);
    } else {
        let empty = Seq::<char>::empty();
        assert(decimal(n).drop_last() =~= empty);
        assert(number(empty) == 0);
    }
}

/// A text holds a part.
pub open spec fn has_part(s: Seq<char>, part: Seq<char>) -> bool {
    exists|at: int|
        0 <= at && at + part.len() <= s.len() && #[trigger] s.subrange(at, at + part.len()) == part
}

/// What stands between two texts is a part of the whole.
pub proof fn lemma_has_part(before: Seq<char>, part: Seq<char>, after: Seq<char>)
    ensures
        has_part(before + part + after, part),
{
    let s = before + part + after;
    let at = before.len() as int;
    assert(s.subrange(at, at + part.len()) =~= part);
}

/// What is a part of a text stays one where the text goes on, and what it goes
/// on with is one.
pub proof fn lemma_part_stays(s: Seq<char>, more: Seq<char>)
    ensures
        has_part(s + more, more),
        forall|part: Seq<char>| #[trigger] has_part(s, part) ==> has_part(s + more, part),
{
    let at = s.len() as int;
    assert((s + more).subrange(at, at + more.len()) =~= more);
    assert forall|part: Seq<char>| #[trigger] has_part(s, part) implies has_part(
        s + more,
        part,
    ) by {
        let i = choose|i: int|
            0 <= i && i + part.len() <= s.len() && #[trigger] s.subrange(i, i + part.len()) == part;
        assert((s + more).subrange(i, i + part.len()) =~= part);
    }
}

/// A part of a part is a part of the whole.
pub proof fn lemma_part_within(
    whole: Seq<char>,
    before: Seq<char>,
    part: Seq<char>,
    after: Seq<char>,
)
    requires
        has_part(whole, before + part + after),
    ensures
        has_part(whole, part),
{
    let outer = before + part + after;
    let i = choose|i: int|
        0 <= i && i + outer.len() <= whole.len() && #[trigger] whole.subrange(i, i + outer.len())
            == outer;
    let at = i + before.len();
    assert forall|k: int| 0 <= k < part.len() implies whole[at + k] == part[k] by {
        assert(whole.subrange(i, i + outer.len())[before.len() + k] == whole[at + k]);
        assert(outer[before.len() + k] == part[k]);
    }
    assert(whole.subrange(at, at + part.len()) =~= part);
}

/// A part of a text is one of what ends with the text.
pub proof fn lemma_part_follows(before: Seq<char>, s: Seq<char>, part: Seq<char>)
    requires
        has_part(s, part),
    ensures
        has_part(before + s, part),
{
    let i = choose|i: int|
        0 <= i && i + part.len() <= s.len() && #[trigger] s.subrange(i, i + part.len()) == part;
    let at = before.len() + i;
    assert((before + s).subrange(at, at + part.len()) =~= s.subrange(i, i + part.len()));
}

/// What is left of a text without the characters of a class at its end.
pub proof fn lemma_trimmed_is(kept: Seq<char>, rest: Seq<char>, class: CharClass)
    requires
        forall|i: int| 0 <= i < rest.len() ==> class.has(#[trigger] rest[i]),
        kept.len() > 0 ==> !class.has(kept.last()),
    ensures
        trim_end(kept + rest, class) == kept,
    decreases rest.len(),
{
    let s = kept + rest;
    if rest.len() == 0 {
        assert(s =~= kept);
    } else {
        assert(s.last() == rest[rest.len() - 1]);
        assert(s.drop_last() =~= kept + rest.drop_last());
        assert forall|i: int| 0 <= i < rest.drop_last().len() implies class.has(
            #[trigger] rest.drop_last()[i],
        ) by {
            assert(rest.drop_last()[i] == rest[i]);
        }
        lemma_trimmed_is(kept, rest.drop_last(), class);
    }
}

proof fn lemma_run(word: Seq<char>, rest: Seq<char>)
    requires
        forall|i: int| 0 <= i < word.len() ==> !is_white(#[trigger] word[i]),
        rest.len() > 0 ==> is_white(rest[0]),
    ensures
        run_length(word + rest) == word.len(),
{
    let s = word + rest;
    assert forall|i: int| 0 <= i < word.len() implies !is_white(#[trigger] s[i]) by {
        assert(s[i] == word[i]);
    }
    if rest.len() > 0 {
        assert(s[word.len() as int] == rest[0]);
    }
    lemma_run_length(s, word.len() as int);
}

/// Words are what stands between white space: the first one ends where white
/// space follows, the rest is split in the same way, and white space before
/// the first word does not count.
pub proof fn law_words_stand_between_white_space(
    white: Seq<char>,
    word: Seq<char>,
    rest: Seq<char>,
    s: &str,
    found: Vec<String>,
    after: &str,
    following: Vec<String>,
    i: int,
)
    requires
        forall|k: int| 0 <= k < white.len() ==> is_white(#[trigger] white[k]),
        word.len() > 0,
        forall|k: int| 0 <= k < word.len() ==> !is_white(#[trigger] word[k]),
        rest.len() > 0 ==> is_white(rest[0]),
        s@ == white + word + rest,
        after@ == rest,
        call_ensures(text_words, (s,), found),
        call_ensures(text_words, (after,), following),
    ensures
        found@.len() == following@.len() + 1,
        found@[0]@ == word,
        0 <= i < following@.len() ==> found@[i + 1]@ == following@[i]@,
{
    let tail = word + rest;
    assert(s@ =~= white + tail);
    assert(tail[0] == word[0]);
    lemma_trimmed_start_is(white, tail, CharClass::White);
    lemma_run(word, rest);
    assert(tail.take(word.len() as int) =~= word);
    assert(tail.skip(word.len() as int) =~= rest);
    assert(words(s@) == seq![word] + words(rest));
    assert(texts(found@).len() == found@.len());
    assert(texts(following@).len() == following@.len());
    assert(texts(found@)[0] == found@[0]@);
    if 0 <= i < following@.len() {
        assert(texts(found@)[i + 1] == found@[i + 1]@);
        assert(texts(following@)[i] == following@[i]@);
    }
}

/// White space holds no words.
pub proof fn law_white_space_holds_no_words(s: &str, found: Vec<String>)
    requires
        forall|k: int| 0 <= k < s@.len() ==> is_white(#[trigger] s@[k]),
        call_ensures(text_words, (s,), found),
    ensures
        found@.len() == 0,
{
    let none = Seq::<char>::empty();
    assert(s@ + none =~= s@);
    lemma_trimmed_start_is(s@, none, CharClass::White);
    assert(texts(found@).len() == found@.len());
}

/// What is left of a text without the characters of a class at its start.
pub proof fn lemma_trimmed_start_is(before: Seq<char>, kept: Seq<char>, class: CharClass)
    requires
        forall|i: int| 0 <= i < before.len() ==> class.has(#[trigger] before[i]),
        kept.len() > 0 ==> !class.has(kept[0]),
    ensures
        trim_start(before + kept, class) == kept,
    decreases before.len(),
{
    let s = before + kept;
    if before.len() == 0 {
        assert(s =~= kept);
    } else {
        assert(s[0] == before[0]);
        let rest = before.drop_first();
        assert(s.drop_first() =~= rest + kept);
        assert forall|i: int| 0 <= i < rest.len() implies class.has(#[trigger] rest[i]) by {
            assert(rest[i] == before[i + 1]);
        }
        lemma_trimmed_start_is(rest, kept, class);
    }
}

/// A text is trimmed on both sides, and nowhere else.
pub proof fn law_texts_are_trimmed_at_both_ends(
    before: Seq<char>,
    kept: Seq<char>,
    after: Seq<char>,
    s: &str,
    trimmed: String,
)
    requires
        forall|i: int| 0 <= i < before.len() ==> is_white(#[trigger] before[i]),
        forall|i: int| 0 <= i < after.len() ==> is_white(#[trigger] after[i]),
        kept.len() > 0,
        !is_white(kept[0]) && !is_white(kept.last()),
        s@ == before + kept + after,
        call_ensures(text_trim, (s,), trimmed),
    ensures
        trimmed@ == kept,
{
    assert(s@ =~= before + (kept + after));
    assert((kept + after)[0] == kept[0]);
    lemma_trimmed_start_is(before, kept + after, CharClass::White);
    lemma_trimmed_is(kept, after, CharClass::White);
}

/// A text is cut at every separator: what stands before the first is the first
/// piece, and the rest is cut in the same way.
pub proof fn law_pieces_stand_between_separators(
    piece: Seq<char>,
    c: char,
    rest: &str,
    s: &str,
    found: Vec<String>,
    following: Vec<String>,
    plain: &str,
    alone: Vec<String>,
    i: int,
)
    requires
        !piece.contains(c),
        s@ == piece.push(c) + rest@,
        call_ensures(text_pieces, (s, c), found),
        call_ensures(text_pieces, (rest, c), following),
        plain@ == piece,
        call_ensures(text_pieces, (plain, c), alone),
    ensures
        found@.len() == following@.len() + 1,
        found@[0]@ == piece,
        0 <= i < following@.len() ==> found@[i + 1]@ == following@[i]@,
        alone@.len() == 1,
        alone@[0]@ == piece,
{
    lemma_split_first_unique(piece, c, rest@);
    lemma_split_first(piece, c);
    assert(texts(found@).len() == found@.len());
    assert(texts(following@).len() == following@.len());
    assert(texts(alone@).len() == alone@.len());
    assert(texts(found@)[0] == found@[0]@);
    assert(pieces(s@, c) == seq![piece] + pieces(rest@, c));
    if 0 <= i < following@.len() {
        assert(texts(found@)[i + 1] == found@[i + 1]@);
        assert(texts(following@)[i] == following@[i]@);
    }
    match split_first(piece, c) {
        Some((a, b)) => {
            assert(piece[a.len() as int] == c);
            assert(piece.contains(c));
        },
        None => {
            assert(pieces(piece, c) == seq![piece]);
            assert(texts(alone@)[0] == alone@[0]@);
        },
    }
}

/// A line ends with its line feed, and loses it with the carriage return
/// before it; what follows is read in the same way.
pub proof fn law_lines_end_with_line_feeds(
    line: Seq<char>,
    rest: &str,
    plain: &str,
    returned: &str,
    of_plain: Vec<String>,
    of_returned: Vec<String>,
    following: Vec<String>,
    i: int,
)
    requires
        !line.contains('\n'),
        line.len() > 0 ==> line.last() != '\r',
        plain@ == line.push('\n') + rest@,
        returned@ == line.push('\r').push('\n') + rest@,
        call_ensures(text_lines, (plain,), of_plain),
        call_ensures(text_lines, (returned,), of_returned),
        call_ensures(text_lines, (rest,), following),
    ensures
        of_plain@.len() == following@.len() + 1,
        of_returned@.len() == following@.len() + 1,
        of_plain@[0]@ == line,
        of_returned@[0]@ == line,
        0 <= i < following@.len() ==> of_plain@[i + 1]@ == following@[i]@ && of_returned@[i + 1]@
            == following@[i]@,
{
    let long = line.push('\r');
    assert(!long.contains('\n')) by {
        if long.contains('\n') {
            let k = choose|k: int| 0 <= k < long.len() && long[k] == '\n';
            assert(line[k] == '\n');
        }
    }
    lemma_split_first_unique(line, '\n', rest@);
    lemma_split_first_unique(long, '\n', rest@);
    assert(long.drop_last() =~= line);
    assert(lines(plain@) == seq![line] + lines(rest@));
    assert(lines(returned@) == seq![line] + lines(rest@));
    assert(texts(of_plain@).len() == of_plain@.len());
    assert(texts(of_returned@).len() == of_returned@.len());
    assert(texts(following@).len() == following@.len());
    assert(texts(of_plain@)[0] == of_plain@[0]@);
    assert(texts(of_returned@)[0] == of_returned@[0]@);
    if 0 <= i < following@.len() {
        assert(texts(of_plain@)[i + 1] == of_plain@[i + 1]@);
        assert(texts(of_returned@)[i + 1] == of_returned@[i + 1]@);
        assert(texts(following@)[i] == following@[i]@);
    }
}

/// A text is split at the first separator, or at the last; without one it is
/// not split.
pub proof fn law_texts_are_split_once(
    a: Seq<char>,
    c: char,
    b: Seq<char>,
    s: &str,
    first: Option<(String, String)>,
    last: Option<(String, String)>,
)
    requires
        s@ == a.push(c) + b,
        call_ensures(text_split_first, (s, c), first),
        call_ensures(text_split_last, (s, c), last),
    ensures
        first is Some && last is Some,
        !a.contains(c) ==> (first->0).0@ == a && (first->0).1@ == b,
        !b.contains(c) ==> (last->0).0@ == a && (last->0).1@ == b,
{
    assert(s@[a.len() as int] == c);
    assert(s@.contains(c));
    lemma_split_first(s@, c);
    if !a.contains(c) {
        lemma_split_first_unique(a, c, b);
    }
    if !b.contains(c) {
        lemma_split_last_unique(a, c, b);
    }
    lemma_split_last_exists(s@, c);
}

proof fn lemma_split_last_exists(s: Seq<char>, c: char)
    requires
        s.contains(c),
    ensures
        split_last(s, c) is Some,
    decreases s.len(),
{
    let k = choose|k: int| 0 <= k < s.len() && s[k] == c;
    if s.last() != c {
        assert(s.drop_last()[k] == c);
        lemma_split_last_exists(s.drop_last(), c);
    }
}

/// A text is found where it stands first.
pub proof fn law_texts_are_found_where_they_stand_first(
    s: &str,
    p: &str,
    found: Option<usize>,
    stripped: Option<String>,
    at: int,
)
    requires
        call_ensures(text_find, (s, p), found),
        call_ensures(text_strip_prefix, (s, p), stripped),
    ensures
        found matches Some(i) ==> i + p@.len() <= s@.len() && s@.subrange(
            i as int,
            i + p@.len(),
        ) == p@,
        (0 <= at && at + p@.len() <= s@.len() && s@.subrange(at, at + p@.len()) == p@)
            ==> found is Some && found->0 <= at,
        stripped is Some <==> p@.is_prefix_of(s@),
        stripped matches Some(rest) ==> s@ == p@ + rest@,
{
    if 0 <= at && at + p@.len() <= s@.len() && s@.subrange(at, at + p@.len()) == p@ {
        assert(occurs_at(s@, p@, at));
    }
    if stripped is Some {
        assert(s@ =~= p@ + s@.skip(p@.len() as int));
    }
}

/// A number is written with the digits of its tens, from the first one that
/// counts to the last.
pub proof fn law_numbers_are_written_by_tens(n: u64, tens: u64, text: String, head: String)
    requires
        call_ensures(decimal_text, (n,), text),
        tens == n / 10,
        call_ensures(decimal_text, (tens,), head),
    ensures
        text@.last() == "0123456789"@[n as int % 10],
        n < 10 ==> text@.len() == 1,
        n >= 10 ==> text@.drop_last() == head@,
{
    reveal_strlit("0123456789");
    if n >= 10 {
        assert(text@.drop_last() =~= head@);
    }
}

/// Texts are put in the order of their characters; none is lost, and none is
/// made up.
pub proof fn law_texts_are_sorted(list: Vec<String>, sorted_list: Vec<String>, i: int, at: int)
    requires
        call_ensures(sort_texts, (list,), sorted_list),
    ensures
        sorted_list@.len() == list@.len(),
        0 <= i < list@.len() ==> texts(sorted_list@).contains(list@[i]@),
        0 <= i < sorted_list@.len() ==> texts(list@).contains(sorted_list@[i]@),
        (0 <= i && i + 1 < sorted_list@.len() && 0 <= at < sorted_list@[i]@.len() && at
            < sorted_list@[i + 1]@.len() && (forall|k: int|
            0 <= k < at ==> #[trigger] sorted_list@[i]@[k] == sorted_list@[i + 1]@[k]))
            ==> sorted_list@[i]@[at] <= sorted_list@[i + 1]@[at],
{
    let a = texts(list@);
    let b = texts(sorted_list@);
    a.to_multiset_ensures();
    b.to_multiset_ensures();
    assert(a.len() == b.len());
    if 0 <= i < list@.len() {
        assert(a[i] == list@[i]@);
        assert(a.contains(a[i]));
        assert(a.to_multiset().count(a[i]) > 0);
    }
    if 0 <= i < sorted_list@.len() {
        assert(b[i] == sorted_list@[i]@);
        assert(b.contains(b[i]));
        assert(b.to_multiset().count(b[i]) > 0);
    }
    if 0 <= i && i + 1 < sorted_list@.len() {
        assert(b[i] == sorted_list@[i]@ && b[i + 1] == sorted_list@[i + 1]@);
        assert(ordered(b[i], b[i + 1]));
        if 0 <= at < b[i].len() && at < b[i + 1].len() && (forall|k: int|
            0 <= k < at ==> #[trigger] b[i][k] == b[i + 1][k]) {
            lemma_ordered_at(b[i], b[i + 1], at);
        }
    }
}

proof fn lemma_ordered_at(a: Seq<char>, b: Seq<char>, at: int)
    requires
        ordered(a, b),
        0 <= at < a.len(),
        at < b.len(),
        forall|k: int| 0 <= k < at ==> #[trigger] a[k] == b[k],
    ensures
        a[at] <= b[at],
    decreases at,
{
    if at > 0 {
        assert(a[0] == b[0]);
        let x = a.drop_first();
        let y = b.drop_first();
        assert forall|k: int| 0 <= k < at - 1 implies #[trigger] x[k] == y[k] by {
            assert(a[k + 1] == b[k + 1]);
        }
        lemma_ordered_at(x, y, at - 1);
    }
}

/// Letters change their case, and nothing else changes.
pub proof fn law_letters_change_their_case(s: &str, low: String, up: String, i: int)
    requires
        call_ensures(text_lower, (s,), low),
        call_ensures(text_upper, (s,), up),
    ensures
        low@.len() == s@.len() && up@.len() == s@.len(),
        0 <= i < s@.len() ==> {
            &&& 'A' <= s@[i] <= 'Z' ==> low@[i] as int == s@[i] as int + 32 && up@[i] == s@[i]
            &&& 'a' <= s@[i] <= 'z' ==> up@[i] as int == s@[i] as int - 32 && low@[i] == s@[i]
            &&& !('A' <= s@[i] <= 'Z') && !('a' <= s@[i] <= 'z') ==> low@[i] == s@[i] && up@[i]
                == s@[i]
        },
{
}

/// A text that goes on behind one more separator has one more piece.
pub proof fn lemma_pieces_push(s: Seq<char>, c: char, last: Seq<char>)
    requires
        !last.contains(c),
    ensures
        pieces(s.push(c) + last, c) == pieces(s, c).push(last),
    decreases s.len(),
{
    let whole = s.push(c) + last;
    lemma_split_first(s, c);
    match split_first(s, c) {
        Some((a, b)) => {
            let rest = b.push(c) + last;
            assert(whole =~= a.push(c) + rest);
            lemma_split_first_unique(a, c, rest);
            lemma_pieces_push(b, c, last);
            assert(seq![a] + pieces(b, c).push(last) =~= (seq![a] + pieces(b, c)).push(last));
        },
        None => {
            lemma_split_first_unique(s, c, last);
            lemma_split_first(last, c);
            assert(pieces(last, c) == seq![last]);
            assert(seq![s] + seq![last] =~= seq![s].push(last));
        },
    }
}

} // verus!
