//! Text as a sequence of characters: comparing, trimming, cutting and joining.
use vstd::prelude::*;
use vstd::string::*;

verus! {

broadcast use vstd::string::group_string_axioms;

// ---------------------------------------------------------------------------
// What the operations mean
// ---------------------------------------------------------------------------

/// Whether `c` has the Unicode `White_Space` property.
pub uninterp spec fn white_space(c: char) -> bool;

/// `s` in upper case, by the Unicode rules.
pub uninterp spec fn upper_text(s: Seq<char>) -> Seq<char>;

/// `s` in lower case, by the Unicode rules.
pub uninterp spec fn lower_text(s: Seq<char>) -> Seq<char>;

/// An ASCII character.
pub open spec fn ascii_char(c: char) -> bool {
    (c as u32) < 128
}

/// The ASCII character `c` in upper case.
pub open spec fn ascii_upper(c: char) -> char {
    if 'a' <= c <= 'z' {
        (((c as u32) - 32) as u32) as char
    } else {
        c
    }
}

/// The ASCII character `c` in lower case.
pub open spec fn ascii_lower(c: char) -> char {
    if 'A' <= c <= 'Z' {
        (((c as u32) + 32) as u32) as char
    } else {
        c
    }
}

/// Text in ASCII.
pub open spec fn ascii_text(s: Seq<char>) -> bool {
    forall|i: int| 0 <= i < s.len() ==> ascii_char(#[trigger] s[i])
}

/// The ASCII letters of `s` in upper case.
pub open spec fn ascii_upper_text(s: Seq<char>) -> Seq<char> {
    s.map_values(|c: char| ascii_upper(c))
}

/// The ASCII letters of `s` in lower case.
pub open spec fn ascii_lower_text(s: Seq<char>) -> Seq<char> {
    s.map_values(|c: char| ascii_lower(c))
}

/// `s` in upper case: letter by letter where it is ASCII, and otherwise by the
/// Unicode rules.
pub open spec fn upper_case(s: Seq<char>) -> Seq<char> {
    if ascii_text(s) {
        ascii_upper_text(s)
    } else {
        upper_text(s)
    }
}

/// `s` in lower case: letter by letter where it is ASCII, and otherwise by the
/// Unicode rules.
pub open spec fn lower_case(s: Seq<char>) -> Seq<char> {
    if ascii_text(s) {
        ascii_lower_text(s)
    } else {
        lower_text(s)
    }
}

/// White space: of ASCII, the space and the controls from tab to carriage
/// return, and otherwise what has the Unicode property.
pub open spec fn blank_char(c: char) -> bool {
    if ascii_char(c) {
        c == ' ' || 9 <= (c as u32) <= 13
    } else {
        white_space(c)
    }
}

/// `s` without its leading white space.
pub open spec fn trim_start_text(s: Seq<char>) -> Seq<char>
    decreases s.len(),
{
    if s.len() > 0 && blank_char(s.first()) {
        trim_start_text(s.drop_first())
    } else {
        s
    }
}

/// `s` without its trailing white space.
pub open spec fn trim_end_text(s: Seq<char>) -> Seq<char>
    decreases s.len(),
{
    if s.len() > 0 && blank_char(s.last()) {
        trim_end_text(s.drop_last())
    } else {
        s
    }
}

/// `s` without the white space at its two ends.
pub open spec fn trim_text(s: Seq<char>) -> Seq<char> {
    trim_end_text(trim_start_text(s))
}

/// Whether nothing is left of `s` once it is trimmed.
pub open spec fn is_blank(s: Seq<char>) -> bool {
    trim_text(s).len() == 0
}

/// Whether `s` begins with `prefix`.
pub open spec fn has_prefix(s: Seq<char>, prefix: Seq<char>) -> bool {
    prefix.len() <= s.len() && s.subrange(0, prefix.len() as int) == prefix
}

/// Whether `s` ends with `suffix`.
pub open spec fn has_suffix(s: Seq<char>, suffix: Seq<char>) -> bool {
    suffix.len() <= s.len() && s.subrange(s.len() - suffix.len(), s.len() as int) == suffix
}

/// `s` without its first `n` characters.
pub open spec fn after(s: Seq<char>, n: int) -> Seq<char> {
    s.subrange(n, s.len() as int)
}

/// The order of text by its characters: a proper prefix comes first.
pub open spec fn text_before(a: Seq<char>, b: Seq<char>) -> bool
    decreases b.len(),
{
    if b.len() == 0 {
        false
    } else if a.len() == 0 {
        true
    } else if a.first() != b.first() {
        a.first() < b.first()
    } else {
        text_before(a.drop_first(), b.drop_first())
    }
}

/// The pieces of `s` between the occurrences of `sep`.
pub open spec fn split_text(s: Seq<char>, sep: char) -> Seq<Seq<char>>
    decreases s.len(),
{
    match split_once_text(s, sep) {
        Some(p) => if p.1.len() < s.len() {
            seq![p.0] + split_text(p.1, sep)
        } else {
            seq![s]
        },
        None => seq![s],
    }
}

/// The decimal digit `d`.
pub open spec fn digit_char(d: nat) -> char {
    (('0' as u32 + d) as u32) as char
}

/// The number `n` in decimal.
pub open spec fn decimal_text(n: nat) -> Seq<char>
    decreases n,
{
    if n < 10 {
        seq![digit_char(n)]
    } else {
        decimal_text(n / 10).push(digit_char(n % 10))
    }
}

/// `parts` with `sep` between them.
pub open spec fn join_text(parts: Seq<Seq<char>>, sep: Seq<char>) -> Seq<char>
    decreases parts.len(),
{
    if parts.len() == 0 {
        seq![]
    } else if parts.len() == 1 {
        parts[0]
    } else {
        join_text(parts.drop_last(), sep) + sep + parts.last()
    }
}

/// The views of some text slices.
pub open spec fn views(parts: Seq<&str>) -> Seq<Seq<char>> {
    Seq::new(parts.len(), |i: int| parts[i]@)
}

/// The views of some strings.
pub open spec fn string_views(parts: Seq<String>) -> Seq<Seq<char>> {
    Seq::new(parts.len(), |i: int| parts[i]@)
}

/// The view of an optional string.
pub open spec fn option_view(s: Option<String>) -> Option<Seq<char>> {
    match s {
        Some(v) => Some(v@),
        None => None,
    }
}

/// The view of an optional text slice.
pub open spec fn option_slice_view(s: Option<&str>) -> Option<Seq<char>> {
    match s {
        Some(v) => Some(v@),
        None => None,
    }
}

// ---------------------------------------------------------------------------
// Trusted: standard library calls
// ---------------------------------------------------------------------------

/// `char::is_whitespace`: the Unicode `White_Space` property. Of the ASCII
/// characters, the space and the five controls from tab to carriage return
/// have it.
pub assume_specification[ char::is_whitespace ](c: char) -> (r: bool)
    ensures
        r == white_space(c),
        ascii_char(c) ==> r == (c == ' ' || 9 <= (c as u32) <= 13),
;

/// `String::push`: appends one character.
pub assume_specification[ String::push ](s: &mut String, c: char)
    ensures
        final(s)@ == old(s)@.push(c),
;

/// `str::to_uppercase`: the Unicode upper-case mapping; on ASCII text, each
/// letter by itself.
#[verifier::external_body]
pub(crate) fn to_upper(s: &str) -> (r: String)
    ensures
        r@ == upper_text(s@),
        ascii_text(s@) ==> r@ == ascii_upper_text(s@),
{
    s.to_uppercase()
}

/// `str::to_lowercase`: the Unicode lower-case mapping; on ASCII text, each
/// letter by itself.
#[verifier::external_body]
pub(crate) fn to_lower(s: &str) -> (r: String)
    ensures
        r@ == lower_text(s@),
        ascii_text(s@) ==> r@ == ascii_lower_text(s@),
{
    s.to_lowercase()
}

// ---------------------------------------------------------------------------
// Comparing
// ---------------------------------------------------------------------------

/// The characters of `s`.
pub fn chars_of(s: &str) -> (r: Vec<char>)
    ensures
        r@ == s@,
{
    let mut out: Vec<char> = Vec::new();
    for c in it: s.chars()
        invariant
            it.seq() == s@,
            out@ == s@.take(it.index() as int),
    {
        out.push(c);
    }
    assert(s@.take(s@.len() as int) == s@);
    out
}

/// Whether the two texts are the same.
pub fn same(a: &str, b: &str) -> (r: bool)
    ensures
        r == (a@ == b@),
{
    let x = chars_of(a);
    let y = chars_of(b);
    if x.len() != y.len() {
        return false;
    }
    let mut i: usize = 0;
    while i < x.len()
        invariant
            x@ == a@,
            y@ == b@,
            x.len() == y.len(),
            i <= x.len(),
            forall|j: int| 0 <= j < i ==> x@[j] == y@[j],
        decreases x.len() - i,
    {
        if x[i] != y[i] {
            return false;
        }
        i += 1;
    }
    assert(x@ =~= y@);
    true
}

/// Whether `a` comes before `b` in the order of text.
pub fn is_before(a: &str, b: &str) -> (r: bool)
    ensures
        r == text_before(a@, b@),
{
    let x = chars_of(a);
    let y = chars_of(b);
    let mut i: usize = 0;
    proof {
        assert(after(x@, 0) =~= a@);
        assert(after(y@, 0) =~= b@);
    }
    while i < x.len() && i < y.len()
        invariant
            i <= x.len(),
            i <= y.len(),
            text_before(a@, b@) == text_before(after(x@, i as int), after(y@, i as int)),
        decreases x.len() - i,
    {
        proof {
            assert(after(x@, i as int).drop_first() =~= after(x@, i + 1));
            assert(after(y@, i as int).drop_first() =~= after(y@, i + 1));
        }
        if x[i] != y[i] {
            return x[i] < y[i];
        }
        i += 1;
    }
    i < y.len()
}

/// Whether `s` is one of `allowed`.
pub fn one_of(s: &str, allowed: &[&str]) -> (r: bool)
    ensures
        r == views(allowed@).contains(s@),
{
    let mut i: usize = 0;
    while i < allowed.len()
        invariant
            i <= allowed.len(),
            forall|j: int| 0 <= j < i ==> allowed@[j]@ != s@,
        decreases allowed.len() - i,
    {
        if same(allowed[i], s) {
            assert(views(allowed@)[i as int] == s@);
            return true;
        }
        i += 1;
    }
    assert forall|j: int| 0 <= j < views(allowed@).len() implies views(allowed@)[j] != s@ by {
        assert(views(allowed@)[j] == allowed@[j]@);
    }
    false
}

/// Whether `s` is one of `items`.
pub fn contains_text(items: &Vec<String>, s: &str) -> (r: bool)
    ensures
        r == string_views(items@).contains(s@),
{
    let mut i: usize = 0;
    while i < items.len()
        invariant
            i <= items.len(),
            forall|j: int| 0 <= j < i ==> items@[j]@ != s@,
        decreases items.len() - i,
    {
        if same(items[i].as_str(), s) {
            assert(string_views(items@)[i as int] == s@);
            return true;
        }
        i += 1;
    }
    assert forall|j: int| 0 <= j < string_views(items@).len() implies string_views(items@)[j]
        != s@ by {
        assert(string_views(items@)[j] == items@[j]@);
    }
    false
}

// ---------------------------------------------------------------------------
// Cutting
// ---------------------------------------------------------------------------

/// `s` without its leading white space is the tail that starts at the first
/// character that is none.
proof fn lemma_trim_start(s: Seq<char>, n: int)
    requires
        0 <= n <= s.len(),
        forall|i: int| 0 <= i < n ==> blank_char(s[i]),
        n < s.len() ==> !blank_char(s[n]),
    ensures
        trim_start_text(s) == after(s, n),
    decreases n,
{
    if n > 0 {
        let t = s.drop_first();
        assert forall|i: int| 0 <= i < n - 1 implies blank_char(t[i]) by {
            assert(t[i] == s[i + 1]);
        }
        lemma_trim_start(t, n - 1);
        assert(after(t, n - 1) =~= after(s, n));
    } else {
        assert(after(s, 0) =~= s);
    }
}

/// The same for trailing white space.
proof fn lemma_trim_end(s: Seq<char>, n: int)
    requires
        0 <= n <= s.len(),
        forall|i: int| n <= i < s.len() ==> blank_char(s[i]),
        n > 0 ==> !blank_char(s[n - 1]),
    ensures
        trim_end_text(s) == s.subrange(0, n),
    decreases s.len() - n,
{
    if n < s.len() {
        let t = s.drop_last();
        lemma_trim_end(t, n);
        assert(t.subrange(0, n) =~= s.subrange(0, n));
    } else {
        assert(s.subrange(0, n) =~= s);
    }
}

/// What is between white space on either side, and neither begins nor ends with
/// any, is what trimming leaves.
pub proof fn lemma_trim_leaves(s: Seq<char>, from: int, to: int)
    requires
        0 <= from <= to <= s.len(),
        forall|i: int| 0 <= i < from ==> blank_char(#[trigger] s[i]),
        forall|i: int| to <= i < s.len() ==> blank_char(#[trigger] s[i]),
        from < to ==> !blank_char(s[from]) && !blank_char(s[to - 1]),
    ensures
        trim_text(s) == s.subrange(from, to),
{
    if from < to {
        lemma_trim_start(s, from);
        let t = after(s, from);
        assert forall|i: int| to - from <= i < t.len() implies blank_char(t[i]) by {
            assert(t[i] == s[i + from]);
        }
        lemma_trim_end(t, to - from);
        assert(t.subrange(0, to - from) =~= s.subrange(from, to));
    } else {
        lemma_trim_start(s, s.len() as int);
        assert(trim_text(s) =~= s.subrange(from, to));
    }
}

/// Trimming leaves the text between some white space on either side.
pub proof fn lemma_trim_span(s: Seq<char>) -> (span: (int, int))
    ensures
        0 <= span.0 <= span.1 <= s.len(),
        forall|i: int| 0 <= i < span.0 ==> blank_char(#[trigger] s[i]),
        forall|i: int| span.1 <= i < s.len() ==> blank_char(#[trigger] s[i]),
        span.0 < span.1 ==> !blank_char(s[span.0]) && !blank_char(s[span.1 - 1]),
        trim_text(s) == s.subrange(span.0, span.1),
    decreases s.len(),
{
    if s.len() > 0 && blank_char(s.first()) {
        let t = s.drop_first();
        let inner = lemma_trim_span(t);
        let span = (inner.0 + 1, inner.1 + 1);
        assert forall|i: int| 0 <= i < span.0 implies blank_char(#[trigger] s[i]) by {
            if i > 0 {
                assert(t[i - 1] == s[i]);
            }
        }
        assert forall|i: int| span.1 <= i < s.len() implies blank_char(#[trigger] s[i]) by {
            assert(t[i - 1] == s[i]);
        }
        lemma_trim_leaves(s, span.0, span.1);
        span
    } else if s.len() > 0 && blank_char(s.last()) {
        let t = s.drop_last();
        let span = lemma_trim_span(t);
        assert forall|i: int| 0 <= i < span.0 implies blank_char(#[trigger] s[i]) by {
            assert(t[i] == s[i]);
        }
        assert forall|i: int| span.1 <= i < s.len() implies blank_char(#[trigger] s[i]) by {
            if i < t.len() {
                assert(t[i] == s[i]);
            }
        }
        lemma_trim_leaves(s, span.0, span.1);
        span
    } else {
        lemma_trim_leaves(s, 0, s.len() as int);
        (0, s.len() as int)
    }
}

/// `s` without the white space at its two ends.
pub fn trimmed<'a>(s: &'a str) -> (r: &'a str)
    ensures
        r@ == trim_text(s@),
{
    let cs = chars_of(s);
    let mut from: usize = 0;
    while from < cs.len() && cs[from].is_whitespace()
        invariant
            cs@ == s@,
            from <= cs.len(),
            forall|i: int| 0 <= i < from ==> blank_char(cs@[i]),
        decreases cs.len() - from,
    {
        from += 1;
    }
    let mut to: usize = cs.len();
    while from < to && cs[to - 1].is_whitespace()
        invariant
            cs@ == s@,
            from <= to <= cs.len(),
            forall|i: int| to <= i < cs.len() ==> blank_char(cs@[i]),
        decreases to,
    {
        to -= 1;
    }
    proof {
        lemma_trim_start(s@, from as int);
        let t = after(s@, from as int);
        assert forall|i: int| to - from <= i < t.len() implies blank_char(t[i]) by {
            assert(t[i] == s@[i + from]);
        }
        lemma_trim_end(t, to - from);
        assert(t.subrange(0, to - from) =~= s@.subrange(from as int, to as int));
    }
    s.substring_char(from, to)
}

/// Whether `s` begins with `prefix`.
pub fn starts_with(s: &str, prefix: &str) -> (r: bool)
    ensures
        r == has_prefix(s@, prefix@),
{
    let n: usize = prefix.unicode_len();
    if s.unicode_len() < n {
        return false;
    }
    same(s.substring_char(0, n), prefix)
}

/// What follows `prefix` in `s`, where `s` begins with it.
pub fn strip_prefix<'a>(s: &'a str, prefix: &str) -> (r: Option<&'a str>)
    ensures
        option_slice_view(r) == (if has_prefix(s@, prefix@) {
            Some(after(s@, prefix@.len() as int))
        } else {
            None
        }),
{
    if starts_with(s, prefix) {
        let n: usize = prefix.unicode_len();
        let end: usize = s.unicode_len();
        Some(s.substring_char(n, end))
    } else {
        None
    }
}

/// Whether `s` ends with `suffix`.
pub fn ends_with(s: &str, suffix: &str) -> (r: bool)
    ensures
        r == has_suffix(s@, suffix@),
{
    let n: usize = suffix.unicode_len();
    let len: usize = s.unicode_len();
    if len < n {
        return false;
    }
    same(s.substring_char(len - n, len), suffix)
}

/// The first position of `c` in `s`.
pub fn find_char(s: &str, c: char) -> (r: Option<usize>)
    ensures
        match r {
            Some(i) => i < s@.len() && s@.index_of_first(c) == Some(i as int),
            None => s@.index_of_first(c) is None,
        },
{
    let cs = chars_of(s);
    let mut i: usize = 0;
    while i < cs.len()
        invariant
            cs@ == s@,
            i <= cs.len(),
            forall|j: int| 0 <= j < i ==> cs@[j] != c,
        decreases cs.len() - i,
    {
        if cs[i] == c {
            proof {
                s@.index_of_first_ensures(c);
                assert(s@.index_of_first(c) == Some(i as int));
            }
            return Some(i);
        }
        i += 1;
    }
    proof {
        s@.index_of_first_ensures(c);
    }
    None
}

/// The two halves of `s` round the first `c`, where it has one.
pub open spec fn split_once_text(s: Seq<char>, c: char) -> Option<(Seq<char>, Seq<char>)> {
    match s.index_of_first(c) {
        Some(i) => Some((s.subrange(0, i), s.subrange(i + 1, s.len() as int))),
        None => None,
    }
}

/// The two halves of `s` round the first `c`, where it has one.
pub fn split_once<'a>(s: &'a str, c: char) -> (r: Option<(&'a str, &'a str)>)
    ensures
        match r {
            Some(p) => split_once_text(s@, c) == Some((p.0@, p.1@)),
            None => split_once_text(s@, c) is None,
        },
{
    proof {
        s@.index_of_first_ensures(c);
    }
    match find_char(s, c) {
        Some(i) => {
            let end: usize = s.unicode_len();
            Some((s.substring_char(0, i), s.substring_char(i + 1, end)))
        },
        None => None,
    }
}


/// The pieces of `s` between the occurrences of `sep`.
pub fn split<'a>(s: &'a str, sep: char) -> (r: Vec<&'a str>)
    ensures
        views(r@) == split_text(s@, sep),
{
    let mut out: Vec<&'a str> = Vec::new();
    let mut rest: &'a str = s;
    proof {
        assert(views(out@) + split_text(rest@, sep) =~= split_text(s@, sep));
    }
    loop
        invariant
            views(out@) + split_text(rest@, sep) == split_text(s@, sep),
        decreases rest@.len(),
    {
        proof {
            rest@.index_of_first_ensures(sep);
        }
        match split_once(rest, sep) {
            Some(p) => {
                let ghost done = views(out@);
                out.push(p.0);
                assert(views(out@) =~= done.push(p.0@));
                assert(done.push(p.0@) + split_text(p.1@, sep) =~= done + (seq![p.0@]
                    + split_text(p.1@, sep)));
                rest = p.1;
            },
            None => {
                let ghost done = views(out@);
                out.push(rest);
                assert(views(out@) =~= done + seq![rest@]);
                return out;
            },
        }
    }
}

/// What is appended behind a separator, and holds none, is one more piece.
pub proof fn lemma_split_appended(s: Seq<char>, sep: char, piece: Seq<char>)
    requires
        !piece.contains(sep),
    ensures
        split_text(s + seq![sep] + piece, sep) == split_text(s, sep).push(piece),
    decreases s.len(),
{
    let whole = s + seq![sep] + piece;
    s.index_of_first_ensures(sep);
    whole.index_of_first_ensures(sep);
    piece.index_of_first_ensures(sep);
    assert(whole[s.len() as int] == sep);
    assert(whole.contains(sep));
    let at = whole.index_of_first(sep)->0;
    match s.index_of_first(sep) {
        Some(i) => {
            assert(whole[i] == s[i]);
            assert(at == i) by {
                if at < i {
                    assert(whole[at] == s[at]);
                }
            }
            let rest = s.subrange(i + 1, s.len() as int);
            assert(whole.subrange(0, i) =~= s.subrange(0, i));
            assert(whole.subrange(i + 1, whole.len() as int) =~= rest + seq![sep] + piece);
            lemma_split_appended(rest, sep, piece);
            assert(split_text(whole, sep) =~= split_text(s, sep).push(piece));
        },
        None => {
            assert(at == s.len()) by {
                if at < s.len() {
                    assert(whole[at] == s[at]);
                    assert(s.contains(sep));
                }
            }
            assert(whole.subrange(0, at) =~= s);
            assert(whole.subrange(at + 1, whole.len() as int) =~= piece);
            assert(split_text(piece, sep) =~= seq![piece]);
            assert(split_text(whole, sep) =~= split_text(s, sep).push(piece));
        },
    }
}

// ---------------------------------------------------------------------------
// Joining
// ---------------------------------------------------------------------------

/// The text `a` followed by `b`.
pub fn joined(a: &str, b: &str) -> (r: String)
    ensures
        r@ == a@ + b@,
{
    a.to_owned().concat(b)
}

/// Three texts one after another.
pub fn joined3(a: &str, b: &str, c: &str) -> (r: String)
    ensures
        r@ == a@ + b@ + c@,
{
    a.to_owned().concat(b).concat(c)
}

/// Five texts one after another.
pub fn joined5(a: &str, b: &str, c: &str, d: &str, e: &str) -> (r: String)
    ensures
        r@ == a@ + b@ + c@ + d@ + e@,
{
    a.to_owned().concat(b).concat(c).concat(d).concat(e)
}

/// `parts` with `sep` between them.
pub fn join(parts: &[&str], sep: &str) -> (r: String)
    ensures
        r@ == join_text(views(parts@), sep@),
{
    let mut out = String::new();
    let mut i: usize = 0;
    while i < parts.len()
        invariant
            i <= parts.len(),
            out@ == join_text(views(parts@).take(i as int), sep@),
        decreases parts.len() - i,
    {
        let ghost all = views(parts@);
        if i > 0 {
            out = out.concat(sep);
        }
        out = out.concat(parts[i]);
        proof {
            assert(all.take(i + 1).drop_last() =~= all.take(i as int));
            assert(all.take(i + 1).last() == parts@[i as int]@);
            if i == 0 {
                assert(all.take(1)[0] == parts@[0]@);
                assert(out@ =~= parts@[0]@);
            }
        }
        i += 1;
    }
    assert(views(parts@).take(parts.len() as int) =~= views(parts@));
    out
}

/// The decimal digit `d`.
fn digit(d: u8) -> (c: char)
    requires
        d < 10,
    ensures
        c == digit_char(d as nat),
{
    match d {
        0 => '0',
        1 => '1',
        2 => '2',
        3 => '3',
        4 => '4',
        5 => '5',
        6 => '6',
        7 => '7',
        8 => '8',
        _ => '9',
    }
}

/// The number `n` in decimal.
pub fn decimal(n: u64) -> (r: String)
    ensures
        r@ == decimal_text(n as nat),
    decreases n,
{
    if n < 10 {
        let mut out = String::new();
        out.push(digit(n as u8));
        assert(out@ =~= seq![digit_char(n as nat)]);
        out
    } else {
        let mut out = decimal(n / 10);
        out.push(digit((n % 10) as u8));
        out
    }
}

/// An owned copy of an optional text.
pub fn owned(s: Option<&str>) -> (r: Option<String>)
    ensures
        option_view(r) == option_slice_view(s),
{
    match s {
        Some(v) => Some(v.to_owned()),
        None => None,
    }
}


// ---------------------------------------------------------------------------
// ASCII letters
// ---------------------------------------------------------------------------

/// The ASCII letter in upper case; any other character as it is.
pub fn upper_ascii_char(c: char) -> (r: char)
    ensures
        r == ascii_upper(c),
{
    match c {
        'a' => 'A',
        'b' => 'B',
        'c' => 'C',
        'd' => 'D',
        'e' => 'E',
        'f' => 'F',
        'g' => 'G',
        'h' => 'H',
        'i' => 'I',
        'j' => 'J',
        'k' => 'K',
        'l' => 'L',
        'm' => 'M',
        'n' => 'N',
        'o' => 'O',
        'p' => 'P',
        'q' => 'Q',
        'r' => 'R',
        's' => 'S',
        't' => 'T',
        'u' => 'U',
        'v' => 'V',
        'w' => 'W',
        'x' => 'X',
        'y' => 'Y',
        'z' => 'Z',
        _ => c,
    }
}

/// The ASCII letter in lower case; any other character as it is.
pub fn lower_ascii_char(c: char) -> (r: char)
    ensures
        r == ascii_lower(c),
{
    match c {
        'A' => 'a',
        'B' => 'b',
        'C' => 'c',
        'D' => 'd',
        'E' => 'e',
        'F' => 'f',
        'G' => 'g',
        'H' => 'h',
        'I' => 'i',
        'J' => 'j',
        'K' => 'k',
        'L' => 'l',
        'M' => 'm',
        'N' => 'n',
        'O' => 'o',
        'P' => 'p',
        'Q' => 'q',
        'R' => 'r',
        'S' => 's',
        'T' => 't',
        'U' => 'u',
        'V' => 'v',
        'W' => 'w',
        'X' => 'x',
        'Y' => 'y',
        'Z' => 'z',
        _ => c,
    }
}

/// `s` with its ASCII letters in lower case.
pub fn to_ascii_lower(s: &str) -> (r: String)
    ensures
        r@ == ascii_lower_text(s@),
{
    let cs = chars_of(s);
    let mut out = String::new();
    let mut i: usize = 0;
    assert(out@ =~= seq![]);
    while i < cs.len()
        invariant
            cs@ == s@,
            i <= cs.len(),
            out@ == ascii_lower_text(s@).take(i as int),
        decreases cs.len() - i,
    {
        out.push(lower_ascii_char(cs[i]));
        i += 1;
        assert(out@ =~= ascii_lower_text(s@).take(i as int));
    }
    assert(out@ =~= ascii_lower_text(s@));
    out
}

// ---------------------------------------------------------------------------
// Laws
// ---------------------------------------------------------------------------

/// Text is in the order of its characters: what two texts begin with alike does
/// not matter, the first characters that differ decide, and a text comes before
/// what goes on from it.
pub proof fn the_first_difference_decides(
    common: Seq<char>,
    a: char,
    b: char,
    x: Seq<char>,
    y: Seq<char>,
)
    ensures
        (a as u32) < (b as u32) ==> text_before(common.push(a) + x, common.push(b) + y),
        (b as u32) < (a as u32) ==> !text_before(common.push(a) + x, common.push(b) + y),
        text_before(common, common.push(a) + x),
        !text_before(common.push(a) + x, common),
        !text_before(common, common),
    decreases common.len(),
{
    let p = common.push(a) + x;
    let q = common.push(b) + y;
    if common.len() > 0 {
        let rest = common.drop_first();
        the_first_difference_decides(rest, a, b, x, y);
        assert(p.drop_first() =~= rest.push(a) + x);
        assert(q.drop_first() =~= rest.push(b) + y);
        assert(p.first() == common.first() && q.first() == common.first());
    } else {
        assert(p.first() == a && q.first() == b);
    }
}

/// Upper and lower case are one another's on ASCII letters, which lie 32 apart;
/// any other ASCII character has none.
pub proof fn letters_lie_32_apart(c: char)
    ensures
        'a' <= c <= 'z' ==> ascii_upper(c) as u32 == c as u32 - 32 && ascii_lower(ascii_upper(c))
            == c,
        'A' <= c <= 'Z' ==> ascii_lower(c) as u32 == c as u32 + 32 && ascii_upper(ascii_lower(c))
            == c,
        !('a' <= c <= 'z') ==> ascii_upper(c) == c,
        !('A' <= c <= 'Z') ==> ascii_lower(c) == c,
{
}

/// The digits of a number, read by tens, are the number.
pub proof fn a_number_in_decimal_ends_in_its_last_digit(n: nat)
    ensures
        n < 10 ==> decimal_text(n) == seq![((48 + n) as u32) as char],
        n >= 10 ==> decimal_text(n).last() == ((48 + n % 10) as u32) as char && decimal_text(
            n,
        ).drop_last() == decimal_text(n / 10),
{
    if n >= 10 {
        assert(decimal_text(n).drop_last() =~= decimal_text(n / 10));
    }
}

/// Splitting a text gives the pieces between the separators: none of them holds
/// one, and joined by it they are the text.
pub proof fn pieces_joined_are_the_text(s: Seq<char>, sep: char)
    ensures
        split_text(s, sep).len() > 0,
        forall|i: int|
            0 <= i < split_text(s, sep).len() ==> !(#[trigger] split_text(s, sep)[i]).contains(sep),
        forward_join(split_text(s, sep), seq![sep]) == s,
    decreases s.len(),
{
    s.index_of_first_ensures(sep);
    if let Some(i) = s.index_of_first(sep) {
        let head = s.subrange(0, i);
        let rest = s.subrange(i + 1, s.len() as int);
        pieces_joined_are_the_text(rest, sep);
        let pieces = split_text(s, sep);
        assert(pieces =~= seq![head] + split_text(rest, sep));
        assert forall|k: int| 0 <= k < pieces.len() implies !(#[trigger] pieces[k]).contains(sep) by {
            if k > 0 {
                assert(pieces[k] == split_text(rest, sep)[k - 1]);
            }
        }
        assert(pieces.drop_first() =~= split_text(rest, sep));
        assert(s =~= head + seq![sep] + rest);
    }
}

/// Pieces with something between them, from the first on.
pub open spec fn forward_join(parts: Seq<Seq<char>>, sep: Seq<char>) -> Seq<char>
    decreases parts.len(),
{
    if parts.len() == 0 {
        seq![]
    } else if parts.len() == 1 {
        parts[0]
    } else {
        parts[0] + sep + forward_join(parts.drop_first(), sep)
    }
}

} // verus!
