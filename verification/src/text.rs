//! Character-level text operations used to render reports and to
//! normalise user input, each stated over `Seq<char>`.

use vstd::prelude::*;

verus! {

/// The ASCII digit that stands for `d`.
pub open spec fn digit_char(d: nat) -> char {
    if d == 0 { '0' }
    else if d == 1 { '1' }
    else if d == 2 { '2' }
    else if d == 3 { '3' }
    else if d == 4 { '4' }
    else if d == 5 { '5' }
    else if d == 6 { '6' }
    else if d == 7 { '7' }
    else if d == 8 { '8' }
    else { '9' }
}

/// The decimal rendering of `n`, without sign or leading zeros.
pub open spec fn decimal(n: nat) -> Seq<char>
    decreases n,
{
    if n < 10 {
        seq![digit_char(n)]
    } else {
        decimal(n / 10).push(digit_char(n % 10))
    }
}

/// Appends one character to a string.
///
/// Trusted: `String::push`, which std documents as appending the given
/// char to the end of the string.
#[verifier::external_body]
pub fn push_char(s: &mut String, c: char)
    ensures
        final(s)@ == old(s)@.push(c),
{
    s.push(c);
}

/// Appends the characters of `t`.
pub fn push_str(s: &mut String, t: &str)
    ensures
        final(s)@ == old(s)@ + t@,
{
    s.append(t);
}

fn digit_of(d: u64) -> (c: char)
    requires
        d < 10,
    ensures
        c == digit_char(d as nat),
{
    if d == 0 { '0' }
    else if d == 1 { '1' }
    else if d == 2 { '2' }
    else if d == 3 { '3' }
    else if d == 4 { '4' }
    else if d == 5 { '5' }
    else if d == 6 { '6' }
    else if d == 7 { '7' }
    else if d == 8 { '8' }
    else { '9' }
}

/// Appends the decimal rendering of `n`.
pub fn push_decimal(s: &mut String, n: u64)
    ensures
        final(s)@ == old(s)@ + decimal(n as nat),
    decreases n,
{
    if n >= 10 {
        push_decimal(s, n / 10);
    }
    let c = digit_of(n % 10);
    push_char(s, c);
    assert(s@ =~= old(s)@ + decimal(n as nat));
}

/// The characters of `s`, one per element.
pub fn chars_of(s: &str) -> (v: Vec<char>)
    ensures
        v@ == s@,
{
    let mut v: Vec<char> = Vec::new();
    for c in it: s.chars()
        invariant
            v@ == it.seq().take(it.index() as int),
    {
        v.push(c);
    }
    v
}

/// A string holding exactly the characters of `cs`.
pub fn string_from_chars(cs: &Vec<char>) -> (s: String)
    ensures
        s@ == cs@,
{
    let mut s = String::new();
    let mut i: usize = 0;
    while i < cs.len()
        invariant
            i <= cs.len(),
            s@ == cs@.take(i as int),
        decreases cs.len() - i,
    {
        push_char(&mut s, cs[i]);
        assert(cs@.take(i + 1) =~= cs@.take(i as int).push(cs@[i as int]));
        i = i + 1;
    }
    assert(cs@.take(cs.len() as int) =~= cs@);
    s
}


/// Whether `c` has the Unicode `White_Space` property, the set that
/// `char::is_whitespace` and `str::trim` go by.
pub open spec fn is_space(c: char) -> bool {
    let u = c as u32;
    ||| 9 <= u <= 13
    ||| u == 32
    ||| u == 0x85
    ||| u == 0xA0
    ||| u == 0x1680
    ||| 0x2000 <= u <= 0x200A
    ||| u == 0x2028
    ||| u == 0x2029
    ||| u == 0x202F
    ||| u == 0x205F
    ||| u == 0x3000
}

/// `s` without its leading white space.
pub open spec fn trim_start(s: Seq<char>) -> Seq<char>
    decreases s.len(),
{
    if s.len() > 0 && is_space(s[0]) {
        trim_start(s.drop_first())
    } else {
        s
    }
}

/// `s` without its trailing white space.
pub open spec fn trim_end(s: Seq<char>) -> Seq<char>
    decreases s.len(),
{
    if s.len() > 0 && is_space(s.last()) {
        trim_end(s.drop_last())
    } else {
        s
    }
}

/// `s` without leading and trailing white space, as `str::trim` gives it.
pub open spec fn trim(s: Seq<char>) -> Seq<char> {
    trim_end(trim_start(s))
}

/// Whether `s` is empty or white space only.
pub open spec fn is_blank(s: Seq<char>) -> bool {
    trim(s).len() == 0
}

pub fn char_is_space(c: char) -> (b: bool)
    ensures
        b == is_space(c),
{
    let u = c as u32;
    (9 <= u && u <= 13) || u == 32 || u == 0x85 || u == 0xA0 || u == 0x1680 || (0x2000 <= u
        && u <= 0x200A) || u == 0x2028 || u == 0x2029 || u == 0x202F || u == 0x205F || u == 0x3000
}

proof fn lemma_trim_start_skip(s: Seq<char>, i: int)
    requires
        0 <= i < s.len(),
        is_space(s[i]),
    ensures
        trim_start(s.skip(i)) == trim_start(s.skip(i + 1)),
{
    assert(s.skip(i).drop_first() =~= s.skip(i + 1));
}

proof fn lemma_trim_end_take(s: Seq<char>, j: int)
    requires
        0 < j <= s.len(),
        is_space(s[j - 1]),
    ensures
        trim_end(s.take(j)) == trim_end(s.take(j - 1)),
{
    assert(s.take(j).drop_last() =~= s.take(j - 1));
}

/// Leading white space of `y + z` is that of `y`, and that of `z` too where
/// `y` is white space only.
pub proof fn lemma_trim_start_concat(y: Seq<char>, z: Seq<char>)
    ensures
        trim_start(y + z) == if trim_start(y).len() > 0 {
            trim_start(y) + z
        } else {
            trim_start(z)
        },
    decreases y.len(),
{
    if y.len() == 0 {
        assert(y + z =~= z);
    } else if is_space(y[0]) {
        assert((y + z)[0] == y[0]);
        assert((y + z).drop_first() =~= y.drop_first() + z);
        lemma_trim_start_concat(y.drop_first(), z);
    } else {
        assert((y + z)[0] == y[0]);
    }
}

/// A trailing space goes with the rest of the trailing white space.
pub proof fn lemma_trim_end_space(w: Seq<char>)
    ensures
        trim_end(w + seq![' ']) == trim_end(w),
{
    let s = w + seq![' '];
    assert(s.last() == ' ');
    assert(is_space(' '));
    assert(s.drop_last() =~= w);
}

/// Spaces around a text do not change what `str::trim` leaves of it.
pub proof fn lemma_trim_padded(y: Seq<char>)
    ensures
        trim(seq![' '] + y + seq![' ']) == trim(y),
{
    let s = seq![' '] + y + seq![' '];
    assert(is_space(' '));
    assert(s[0] == ' ');
    assert(s.drop_first() =~= y + seq![' ']);
    assert(trim_start(s) == trim_start(y + seq![' ']));
    lemma_trim_start_concat(y, seq![' ']);
    if trim_start(y).len() > 0 {
        lemma_trim_end_space(trim_start(y));
    } else {
        let one = seq![' '];
        assert(one.len() == 1 && one[0] == ' ');
        assert(one.drop_first() =~= Seq::<char>::empty());
        assert(trim_start(one.drop_first()) =~= Seq::<char>::empty());
        assert(trim_start(one) == trim_start(one.drop_first()));
    }
}

/// `c` with an ASCII small letter turned into its capital letter.
pub open spec fn upper_char(c: char) -> char {
    if 'a' <= c <= 'z' {
        ((c as u32) - 32) as char
    } else {
        c
    }
}

/// `s` with ASCII small letters turned into capital ones, as
/// `str::to_ascii_uppercase` gives it.
pub open spec fn ascii_upper(s: Seq<char>) -> Seq<char> {
    s.map_values(|c: char| upper_char(c))
}

proof fn lemma_upper_char(c: char)
    ensures
        is_space(upper_char(c)) == is_space(c),
        lower_char(upper_char(c)) == lower_char(c),
{
    if 'a' <= c <= 'z' {
        let u = (c as u32) - 32;
        assert(65 <= u <= 90);
        assert((u as char) as u32 == u);
    }
}

proof fn lemma_trim_start_upper(s: Seq<char>)
    ensures
        trim_start(ascii_upper(s)) == ascii_upper(trim_start(s)),
    decreases s.len(),
{
    if s.len() > 0 {
        lemma_upper_char(s[0]);
        assert(ascii_upper(s)[0] == upper_char(s[0]));
        if is_space(s[0]) {
            assert(ascii_upper(s).drop_first() =~= ascii_upper(s.drop_first()));
            lemma_trim_start_upper(s.drop_first());
        }
    }
}

proof fn lemma_trim_end_upper(s: Seq<char>)
    ensures
        trim_end(ascii_upper(s)) == ascii_upper(trim_end(s)),
    decreases s.len(),
{
    if s.len() > 0 {
        lemma_upper_char(s.last());
        assert(ascii_upper(s).last() == upper_char(s.last()));
        if is_space(s.last()) {
            assert(ascii_upper(s).drop_last() =~= ascii_upper(s.drop_last()));
            lemma_trim_end_upper(s.drop_last());
        }
    }
}

/// Capital letters change neither what `str::trim` keeps nor its small
/// letters.
pub proof fn lemma_trim_lower_upper(s: Seq<char>)
    ensures
        ascii_lower(trim(ascii_upper(s))) == ascii_lower(trim(s)),
{
    lemma_trim_start_upper(s);
    lemma_trim_end_upper(trim_start(s));
    let t = trim(s);
    assert forall|i: int| 0 <= i < t.len() implies ascii_lower(ascii_upper(t))[i] == ascii_lower(t)[i] by {
        lemma_upper_char(t[i]);
    }
    assert(ascii_lower(ascii_upper(t)) =~= ascii_lower(t));
}

/// The characters of `s` from index `lo` up to `hi`.
pub fn sub_chars(s: &Vec<char>, lo: usize, hi: usize) -> (r: Vec<char>)
    requires
        lo <= hi <= s.len(),
    ensures
        r@ == s@.subrange(lo as int, hi as int),
{
    let mut r: Vec<char> = Vec::new();
    let mut k = lo;
    while k < hi
        invariant
            lo <= k <= hi <= s.len(),
            r@ == s@.subrange(lo as int, k as int),
        decreases hi - k,
    {
        r.push(s[k]);
        assert(s@.subrange(lo as int, k + 1) =~= s@.subrange(lo as int, k as int).push(s@[k as int]));
        k = k + 1;
    }
    r
}

/// `s` without leading and trailing white space.
pub fn trim_chars(s: &Vec<char>) -> (r: Vec<char>)
    ensures
        r@ == trim(s@),
{
    let mut i: usize = 0;
    assert(s@.skip(0) =~= s@);
    while i < s.len() && char_is_space(s[i])
        invariant
            i <= s.len(),
            trim_start(s@) == trim_start(s@.skip(i as int)),
        decreases s.len() - i,
    {
        proof {
            lemma_trim_start_skip(s@, i as int);
        }
        i = i + 1;
    }
    assert(trim_start(s@.skip(i as int)) == s@.skip(i as int));
    let ghost t = s@.skip(i as int);
    let mut j: usize = s.len() - i;
    assert(t.take(j as int) =~= t);
    while j > 0 && char_is_space(s[i + j - 1])
        invariant
            j <= s.len() - i,
            t == s@.skip(i as int),
            trim_end(t) == trim_end(t.take(j as int)),
        decreases j,
    {
        proof {
            lemma_trim_end_take(t, j as int);
        }
        j = j - 1;
    }
    assert(trim_end(t.take(j as int)) == t.take(j as int));
    assert(t.take(j as int) =~= s@.subrange(i as int, (i + j) as int));
    sub_chars(s, i, i + j)
}

/// Whether `s` is empty or white space only.
pub fn chars_blank(s: &Vec<char>) -> (b: bool)
    ensures
        b == is_blank(s@),
{
    trim_chars(s).len() == 0
}

/// `c` with an ASCII capital letter turned into its small letter.
pub open spec fn lower_char(c: char) -> char {
    if 'A' <= c <= 'Z' {
        ((c as u32) + 32) as char
    } else {
        c
    }
}

/// `s` with ASCII capital letters turned into small ones, as
/// `str::to_ascii_lowercase` gives it.
pub open spec fn ascii_lower(s: Seq<char>) -> Seq<char> {
    s.map_values(|c: char| lower_char(c))
}

pub fn lower_char_of(c: char) -> (r: char)
    ensures
        r == lower_char(c),
{
    if 'A' <= c && c <= 'Z' {
        let b = (c as u32 + 32) as u8;
        b as char
    } else {
        c
    }
}

/// `s` with ASCII capital letters turned into small ones.
pub fn lower_chars(s: &Vec<char>) -> (r: Vec<char>)
    ensures
        r@ == ascii_lower(s@),
{
    let mut r: Vec<char> = Vec::new();
    let mut i: usize = 0;
    while i < s.len()
        invariant
            i <= s.len(),
            r@ == ascii_lower(s@.take(i as int)),
        decreases s.len() - i,
    {
        let c = lower_char_of(s[i]);
        r.push(c);
        assert(ascii_lower(s@.take(i + 1)) =~= ascii_lower(s@.take(i as int)).push(c));
        i = i + 1;
    }
    assert(s@.take(s.len() as int) =~= s@);
    r
}

/// Whether `needle` occurs in `hay` starting at index `i`.
pub open spec fn occurs_at(hay: Seq<char>, needle: Seq<char>, i: int) -> bool {
    0 <= i && i + needle.len() <= hay.len() && hay.subrange(i, i + needle.len()) == needle
}

/// Whether `needle` occurs in `hay`, as `str::contains` decides it.
pub open spec fn contains(hay: Seq<char>, needle: Seq<char>) -> bool {
    exists|i: int| occurs_at(hay, needle, i)
}

/// Whether `hay` begins with `needle`.
pub open spec fn starts_with(hay: Seq<char>, needle: Seq<char>) -> bool {
    occurs_at(hay, needle, 0)
}

/// Whether `a` and `b` hold the same characters.
pub fn chars_equal(a: &Vec<char>, b: &Vec<char>) -> (r: bool)
    ensures
        r == (a@ == b@),
{
    if a.len() != b.len() {
        return false;
    }
    let mut i: usize = 0;
    while i < a.len()
        invariant
            a.len() == b.len(),
            i <= a.len(),
            a@.take(i as int) == b@.take(i as int),
        decreases a.len() - i,
    {
        if a[i] != b[i] {
            return false;
        }
        assert(a@.take(i + 1) =~= a@.take(i as int).push(a@[i as int]));
        assert(b@.take(i + 1) =~= b@.take(i as int).push(b@[i as int]));
        i = i + 1;
    }
    assert(a@ =~= a@.take(i as int));
    assert(b@ =~= b@.take(i as int));
    true
}

/// Whether `needle` occurs in `hay` at index `at`.
pub fn chars_occur_at(hay: &Vec<char>, needle: &Vec<char>, at: usize) -> (r: bool)
    ensures
        r == occurs_at(hay@, needle@, at as int),
{
    if at > hay.len() || needle.len() > hay.len() - at {
        return false;
    }
    let mut k: usize = 0;
    while k < needle.len()
        invariant
            at + needle.len() <= hay.len(),
            k <= needle.len(),
            hay@.subrange(at as int, at + k) == needle@.take(k as int),
        decreases needle.len() - k,
    {
        if hay[at + k] != needle[k] {
            assert(hay@.subrange(at as int, at + needle.len())[k as int] != needle@[k as int]);
            return false;
        }
        assert(hay@.subrange(at as int, at + k + 1) =~= hay@.subrange(at as int, at + k).push(
            hay@[at + k],
        ));
        assert(needle@.take(k + 1) =~= needle@.take(k as int).push(needle@[k as int]));
        k = k + 1;
    }
    assert(needle@.take(k as int) =~= needle@);
    true
}

/// Whether `needle` occurs anywhere in `hay`.
pub fn chars_contain(hay: &Vec<char>, needle: &Vec<char>) -> (r: bool)
    ensures
        r == contains(hay@, needle@),
{
    if needle.len() > hay.len() {
        return false;
    }
    let last = hay.len() - needle.len();
    let mut i: usize = 0;
    while i <= last
        invariant
            last == hay.len() - needle.len(),
            i <= last + 1,
            forall|j: int| 0 <= j < i ==> !occurs_at(hay@, needle@, j),
        decreases last + 1 - i,
    {
        if chars_occur_at(hay, needle, i) {
            return true;
        }
        if i == last {
            assert forall|j: int| !occurs_at(hay@, needle@, j) by {
                if 0 <= j <= i {
                }
            }
            return false;
        }
        i = i + 1;
    }
    false
}


/// The texts that `f` gives for the elements of `s`, one after another.
pub open spec fn concat_map<T>(s: Seq<T>, f: spec_fn(T) -> Seq<char>) -> Seq<char>
    decreases s.len(),
{
    if s.len() == 0 {
        Seq::<char>::empty()
    } else {
        concat_map(s.drop_last(), f) + f(s.last())
    }
}

/// One more element adds its text at the end.
pub proof fn lemma_concat_map_step<T>(s: Seq<T>, f: spec_fn(T) -> Seq<char>, i: int)
    requires
        0 <= i < s.len(),
    ensures
        concat_map(s.take(i + 1), f) == concat_map(s.take(i), f) + f(s[i]),
{
    assert(s.take(i + 1).drop_last() =~= s.take(i));
}

/// The whole sequence is its longest prefix.
pub proof fn lemma_take_all<T>(s: Seq<T>)
    ensures
        s.take(s.len() as int) == s,
{
    assert(s.take(s.len() as int) =~= s);
}

/// `s` padded with spaces on the right to `width` characters, as the
/// format `{:<width}` does; longer texts are left as they are.
pub open spec fn pad_right(s: Seq<char>, width: nat) -> Seq<char> {
    if s.len() >= width {
        s
    } else {
        s + Seq::new((width - s.len()) as nat, |i: int| ' ')
    }
}

/// `c` repeated `n` times.
pub open spec fn repeat(c: char, n: nat) -> Seq<char> {
    Seq::new(n, |i: int| c)
}

/// Appends `c` `n` times.
pub fn push_repeat(s: &mut String, c: char, n: usize)
    ensures
        final(s)@ == old(s)@ + repeat(c, n as nat),
{
    let mut k: usize = 0;
    while k < n
        invariant
            k <= n,
            s@ == old(s)@ + repeat(c, k as nat),
        decreases n - k,
    {
        push_char(s, c);
        assert(old(s)@ + repeat(c, (k + 1) as nat) =~= old(s)@ + repeat(c, k as nat) + seq![c]);
        k = k + 1;
    }
}

/// Appends `t` padded with spaces on the right to `width` characters.
pub fn push_padded(s: &mut String, t: &str, width: usize)
    ensures
        final(s)@ == old(s)@ + pad_right(t@, width as nat),
{
    let n = chars_of(t).len();
    push_str(s, t);
    if n < width {
        push_repeat(s, ' ', width - n);
        assert(old(s)@ + pad_right(t@, width as nat) =~= old(s)@ + t@ + repeat(' ', (width - n) as nat));
    }
}

/// The texts of `parts` with `sep` between each two.
pub open spec fn join(parts: Seq<Seq<char>>, sep: Seq<char>) -> Seq<char>
    decreases parts.len(),
{
    if parts.len() == 0 {
        Seq::<char>::empty()
    } else if parts.len() == 1 {
        parts[0]
    } else {
        join(parts.drop_last(), sep) + sep + parts.last()
    }
}

/// One more part adds the separator and the part at the end.
pub proof fn lemma_join_step(parts: Seq<Seq<char>>, sep: Seq<char>, i: int)
    requires
        0 <= i < parts.len(),
    ensures
        join(parts.take(i + 1), sep) == if i == 0 { parts[0] } else { join(parts.take(i), sep) + sep + parts[i] },
{
    assert(parts.take(i + 1).drop_last() =~= parts.take(i));
}

/// Padding keeps the text, then adds spaces up to the width; a text at
/// least as wide is left as it is. A repeat is the character, that many
/// times.
pub proof fn law_pad_and_repeat(s: Seq<char>, width: nat, c: char, n: nat)
    ensures
        pad_right(s, width).len() == if s.len() >= width { s.len() } else { width },
        s.is_prefix_of(pad_right(s, width)),
        forall|i: int| s.len() <= i < pad_right(s, width).len() ==> #[trigger] pad_right(s, width)[i] == ' ',
        repeat(c, n).len() == n,
        forall|i: int| 0 <= i < n ==> #[trigger] repeat(c, n)[i] == c,
{
}

/// Small letters: an ASCII capital becomes its small letter, every other
/// character stays.
pub proof fn law_lower_char(c: char)
    ensures
        'A' <= c <= 'Z' ==> lower_char(c) as u32 == c as u32 + 32 && 'a' <= lower_char(c) <= 'z',
        !('A' <= c <= 'Z') ==> lower_char(c) == c,
{
    if 'A' <= c <= 'Z' {
        let u = (c as u32) + 32;
        assert(97 <= u <= 122);
        assert((u as char) as u32 == u);
    }
}

} // verus!
