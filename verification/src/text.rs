//! Character-level text helpers shared by the rest of the crate.
//!
//! Everything here works on `Seq<char>` in specifications and on `Vec<char>`
//! in executable code; `chars_of` and `string_from_chars` cross between
//! `&str`/`String` and character vectors.
use vstd::prelude::*;

verus! {

// ── Specifications ──────────────────────────────────────────────────────────

/// `parts` joined with `sep` between neighbours (`[a, b, c]` gives `a sep b sep c`).
pub open spec fn join(parts: Seq<Seq<char>>, sep: Seq<char>) -> Seq<char>
    decreases parts.len(),
{
    if parts.len() == 0 {
        Seq::empty()
    } else if parts.len() == 1 {
        parts[0]
    } else {
        join(parts.drop_last(), sep) + sep + parts.last()
    }
}

/// The views of a sequence of strings.
pub open spec fn views(strings: Seq<String>) -> Seq<Seq<char>> {
    strings.map_values(|s: String| s@)
}

/// The decimal digit for `d < 10`.
pub open spec fn digit_char(d: nat) -> char {
    if d == 0 { '0' }
    else if d == 1 { '1' }
    else if d == 2 { '2' }
    else if d == 3 { '3' }
    else if d == 4 { '4' }
    else if d == 5 { '5' }
    else if d == 6 { '6' }
    else if d == 7 { '7' }
    else if d == 8 { '8' }
    else { '9' }
}

/// The lower-case hexadecimal digit for `d < 16`.
pub open spec fn hex_digit_char(d: nat) -> char {
    if d < 10 { digit_char(d) }
    else if d == 10 { 'a' }
    else if d == 11 { 'b' }
    else if d == 12 { 'c' }
    else if d == 13 { 'd' }
    else if d == 14 { 'e' }
    else { 'f' }
}

/// Decimal rendering of `n`, without sign or leading zeros (`0` is `"0"`).
pub open spec fn decimal(n: nat) -> Seq<char>
    decreases n,
{
    if n < 10 {
        seq![digit_char(n)]
    } else {
        decimal(n / 10).push(digit_char(n % 10))
    }
}

/// Lower-case hexadecimal rendering of `n` without leading zeros (`{:x}`).
pub open spec fn hex(n: nat) -> Seq<char>
    decreases n,
{
    if n < 16 {
        seq![hex_digit_char(n)]
    } else {
        hex(n / 16).push(hex_digit_char(n % 16))
    }
}

/// `count` copies of `c`.
pub open spec fn repeat_char(c: char, count: nat) -> Seq<char> {
    Seq::new(count, |i: int| c)
}

/// Lower-case hexadecimal rendering of `n`, left-padded with `'0'` to at
/// least `width` characters (`{:0width$x}`).
pub open spec fn hex_padded(n: nat, width: nat) -> Seq<char> {
    let digits = hex(n);
    if digits.len() < width {
        repeat_char('0', (width - digits.len()) as nat) + digits
    } else {
        digits
    }
}

/// ASCII upper-case letters mapped to lower case; every other character kept.
pub open spec fn ascii_lower_char(c: char) -> char {
    if 'A' <= c <= 'Z' {
        ((c as u32) + 32) as char
    } else {
        c
    }
}

/// `s` with every ASCII upper-case letter lowered (`str::to_ascii_lowercase`).
pub open spec fn ascii_lower(s: Seq<char>) -> Seq<char> {
    s.map_values(|c: char| ascii_lower_char(c))
}

/// Whether `c` has the Unicode `White_Space` property (PropList.txt), as
/// `char::is_whitespace` decides it: tab to carriage return, space, next
/// line, no-break space, ogham space mark, the spaces from en quad to hair
/// space, line and paragraph separators, narrow no-break space, medium
/// mathematical space and ideographic space.
pub open spec fn unicode_white_space(c: char) -> bool {
    let u = c as u32;
    ||| 0x9 <= u <= 0xd
    ||| u == 0x20
    ||| u == 0x85
    ||| u == 0xa0
    ||| u == 0x1680
    ||| 0x2000 <= u <= 0x200a
    ||| u == 0x2028
    ||| u == 0x2029
    ||| u == 0x202f
    ||| u == 0x205f
    ||| u == 0x3000
}

/// `s` without its leading white space.
pub open spec fn trim_start(s: Seq<char>) -> Seq<char>
    decreases s.len(),
{
    if s.len() > 0 && unicode_white_space(s[0]) {
        trim_start(s.drop_first())
    } else {
        s
    }
}

/// `s` without its trailing white space.
pub open spec fn trim_end(s: Seq<char>) -> Seq<char>
    decreases s.len(),
{
    if s.len() > 0 && unicode_white_space(s.last()) {
        trim_end(s.drop_last())
    } else {
        s
    }
}

/// `s` without leading and trailing white space (`str::trim`).
pub open spec fn trim(s: Seq<char>) -> Seq<char> {
    trim_end(trim_start(s))
}

/// `pat` occurs in `s` starting at index `i`.
pub open spec fn occurs_at(s: Seq<char>, pat: Seq<char>, i: int) -> bool {
    0 <= i && i + pat.len() <= s.len() && s.subrange(i, i + pat.len()) == pat
}

/// `pat` occurs somewhere in `s` (`str::contains`).
pub open spec fn contains_text(s: Seq<char>, pat: Seq<char>) -> bool {
    exists|i: int| occurs_at(s, pat, i)
}

/// `s` begins with `prefix`.
pub open spec fn has_prefix(s: Seq<char>, prefix: Seq<char>) -> bool {
    prefix.len() <= s.len() && s.take(prefix.len() as int) == prefix
}

/// The white-space separated words of `s` read so far, and the word being
/// read, after scanning `s` from the left.
pub open spec fn word_scan(s: Seq<char>) -> (Seq<Seq<char>>, Seq<char>)
    decreases s.len(),
{
    if s.len() == 0 {
        (Seq::empty(), Seq::empty())
    } else {
        let (done, current) = word_scan(s.drop_last());
        if unicode_white_space(s.last()) {
            if current.len() > 0 {
                (done.push(current), Seq::empty())
            } else {
                (done, Seq::empty())
            }
        } else {
            (done, current.push(s.last()))
        }
    }
}

/// The maximal runs of non white-space characters of `s`, in order
/// (`str::split_whitespace`).
pub open spec fn words(s: Seq<char>) -> Seq<Seq<char>> {
    let (done, current) = word_scan(s);
    if current.len() > 0 {
        done.push(current)
    } else {
        done
    }
}

// ── std calls ──────────────────────────────────────────────────────────────

/// Appends one character to a `String` (std `String::push`).
#[verifier::external_body]
pub(crate) fn string_push(s: &mut String, c: char)
    ensures
        final(s)@ == old(s)@.push(c),
{
    s.push(c);
}

/// Whether `c` is white space, as `char::is_whitespace` answers: the
/// Unicode `White_Space` property. In ASCII that is exactly space and the
/// characters from tab to carriage return.
pub(crate) fn char_is_whitespace(c: char) -> (b: bool)
    ensures
        b == unicode_white_space(c),
        (c as u32) < 128 ==> (b <==> (c == ' ' || ('\t' <= c && c <= '\r'))),
{
    let u = c as u32;
    (0x9 <= u && u <= 0xd) || u == 0x20 || u == 0x85 || u == 0xa0 || u == 0x1680 || (0x2000 <= u
        && u <= 0x200a) || u == 0x2028 || u == 0x2029 || u == 0x202f || u == 0x205f || u == 0x3000
}

// ── Conversions ─────────────────────────────────────────────────────────────

/// The characters of a string slice, in order.
pub fn chars_of(s: &str) -> (v: Vec<char>)
    ensures
        v@ == s@,
{
    let mut v: Vec<char> = Vec::new();
    for c in it: s.chars()
        invariant
            v@ == it.seq().take(it.index()),
    {
        v.push(c);
    }
    v
}

/// Builds a `String` holding exactly the given characters.
pub fn string_from_chars(cs: &[char]) -> (s: String)
    ensures
        s@ == cs@,
{
    let mut s = String::new();
    let mut i: usize = 0;
    while i < cs.len()
        invariant
            i <= cs.len(),
            s@ == cs@.take(i as int),
        decreases cs.len() - i,
    {
        string_push(&mut s, cs[i]);
        proof {
            assert(cs@.take(i as int + 1) == cs@.take(i as int).push(cs@[i as int]));
        }
        i = i + 1;
    }
    proof {
        assert(cs@.take(cs.len() as int) == cs@);
    }
    s
}

/// Appends all of `tail` to `v`.
pub fn push_all(v: &mut Vec<char>, tail: &[char])
    ensures
        final(v)@ == old(v)@ + tail@,
{
    let ghost start = v@;
    let mut i: usize = 0;
    while i < tail.len()
        invariant
            i <= tail.len(),
            v@ == start + tail@.take(i as int),
        decreases tail.len() - i,
    {
        v.push(tail[i]);
        proof {
            assert(tail@.take(i as int + 1) == tail@.take(i as int).push(tail@[i as int]));
        }
        i = i + 1;
    }
    proof {
        assert(tail@.take(tail.len() as int) == tail@);
    }
}

/// The views of several character vectors.
pub open spec fn char_views(vs: Seq<Vec<char>>) -> Seq<Seq<char>> {
    vs.map_values(|v: Vec<char>| v@)
}

/// Joins character vectors with `sep` between neighbours.
pub fn join_chars(parts: &Vec<Vec<char>>, sep: &[char]) -> (r: Vec<char>)
    ensures
        r@ == join(char_views(parts@), sep@),
{
    let mut r: Vec<char> = Vec::new();
    let mut i: usize = 0;
    while i < parts.len()
        invariant
            i <= parts.len(),
            r@ == join(char_views(parts@).take(i as int), sep@),
        decreases parts.len() - i,
    {
        let ghost before = char_views(parts@).take(i as int);
        let ghost after = char_views(parts@).take(i as int + 1);
        proof {
            assert(after.drop_last() == before);
            assert(after.last() == parts@[i as int]@);
        }
        if i > 0 {
            push_all(&mut r, sep);
        }
        push_all(&mut r, parts[i].as_slice());
        proof {
            if i == 0 {
                assert(before.len() == 0);
                assert(r@ == after[0]);
            }
        }
        i = i + 1;
    }
    proof {
        assert(char_views(parts@).take(parts.len() as int) == char_views(parts@));
    }
    r
}

/// The characters of each string, in order.
pub fn chars_of_strings(strings: &Vec<String>) -> (r: Vec<Vec<char>>)
    ensures
        char_views(r@) == views(strings@),
{
    let mut r: Vec<Vec<char>> = Vec::new();
    let mut i: usize = 0;
    while i < strings.len()
        invariant
            i <= strings.len(),
            char_views(r@) == views(strings@).take(i as int),
        decreases strings.len() - i,
    {
        let cs = chars_of(strings[i].as_str());
        r.push(cs);
        proof {
            assert(views(strings@).take(i as int + 1) == views(strings@).take(i as int).push(
                strings@[i as int]@,
            ));
            assert(char_views(r@) == char_views(r@.drop_last()).push(r@.last()@));
        }
        i = i + 1;
    }
    proof {
        assert(views(strings@).take(strings.len() as int) == views(strings@));
    }
    r
}

/// Joins strings with `sep` between neighbours (`[String]::join`).
pub fn join_strings(parts: &Vec<String>, sep: &str) -> (r: Vec<char>)
    ensures
        r@ == join(views(parts@), sep@),
{
    let cs = chars_of_strings(parts);
    let sep_chars = chars_of(sep);
    join_chars(&cs, sep_chars.as_slice())
}

// ── Numbers ─────────────────────────────────────────────────────────────────

fn digit_of(d: u64) -> (c: char)
    requires
        d < 10,
    ensures
        c == digit_char(d as nat),
{
    if d == 0 { '0' }
    else if d == 1 { '1' }
    else if d == 2 { '2' }
    else if d == 3 { '3' }
    else if d == 4 { '4' }
    else if d == 5 { '5' }
    else if d == 6 { '6' }
    else if d == 7 { '7' }
    else if d == 8 { '8' }
    else { '9' }
}

fn hex_digit_of(d: u64) -> (c: char)
    requires
        d < 16,
    ensures
        c == hex_digit_char(d as nat),
{
    if d < 10 { digit_of(d) }
    else if d == 10 { 'a' }
    else if d == 11 { 'b' }
    else if d == 12 { 'c' }
    else if d == 13 { 'd' }
    else if d == 14 { 'e' }
    else { 'f' }
}

/// Appends the decimal rendering of `n` (`{}` of an unsigned integer).
pub fn push_decimal(v: &mut Vec<char>, n: u64)
    ensures
        final(v)@ == old(v)@ + decimal(n as nat),
    decreases n,
{
    if n < 10 {
        v.push(digit_of(n));
        proof {
            assert(old(v)@.push(digit_char(n as nat)) == old(v)@ + seq![digit_char(n as nat)]);
        }
    } else {
        push_decimal(v, n / 10);
        v.push(digit_of(n % 10));
        proof {
            let d = decimal((n / 10) as nat);
            assert(old(v)@ + d.push(digit_char((n % 10) as nat)) == (old(v)@ + d).push(
                digit_char((n % 10) as nat),
            ));
        }
    }
}

/// The decimal rendering of `n`.
pub fn decimal_chars(n: u64) -> (r: Vec<char>)
    ensures
        r@ == decimal(n as nat),
{
    let mut r: Vec<char> = Vec::new();
    push_decimal(&mut r, n);
    proof {
        assert(Seq::<char>::empty() + decimal(n as nat) == decimal(n as nat));
    }
    r
}

/// Appends the lower-case hexadecimal rendering of `n` (`{:x}`).
pub fn push_hex(v: &mut Vec<char>, n: u64)
    ensures
        final(v)@ == old(v)@ + hex(n as nat),
    decreases n,
{
    if n < 16 {
        v.push(hex_digit_of(n));
        proof {
            assert(old(v)@.push(hex_digit_char(n as nat)) == old(v)@ + seq![hex_digit_char(n as nat)]);
        }
    } else {
        push_hex(v, n / 16);
        v.push(hex_digit_of(n % 16));
        proof {
            let d = hex((n / 16) as nat);
            assert(old(v)@ + d.push(hex_digit_char((n % 16) as nat)) == (old(v)@ + d).push(
                hex_digit_char((n % 16) as nat),
            ));
        }
    }
}

proof fn lemma_hex_len_bound(n: nat)
    ensures
        1 <= hex(n).len() <= n + 1,
    decreases n,
{
    if n >= 16 {
        lemma_hex_len_bound(n / 16);
    }
}

/// Appends `n` in lower-case hexadecimal, zero-padded to at least `width`
/// characters (`{:0width$x}`).
pub fn push_hex_padded(v: &mut Vec<char>, n: u64, width: usize)
    ensures
        final(v)@ == old(v)@ + hex_padded(n as nat, width as nat),
{
    let mut digits: Vec<char> = Vec::new();
    push_hex(&mut digits, n);
    proof {
        assert(Seq::<char>::empty() + hex(n as nat) == hex(n as nat));
    }
    let mut pad: usize = 0;
    if digits.len() < width {
        let zeros = width - digits.len();
        while pad < zeros
            invariant
                pad <= zeros,
                zeros == width - digits@.len(),
                v@ == old(v)@ + repeat_char('0', pad as nat),
            decreases zeros - pad,
        {
            v.push('0');
            proof {
                assert(repeat_char('0', (pad + 1) as nat) == repeat_char('0', pad as nat).push('0'));
            }
            pad = pad + 1;
        }
    }
    let ghost mid = v@;
    push_all(v, digits.as_slice());
    proof {
        if digits@.len() < width {
            assert(v@ == old(v)@ + (repeat_char('0', (width - digits@.len()) as nat) + digits@));
        } else {
            assert(pad == 0);
            assert(repeat_char('0', 0) == Seq::<char>::empty());
            assert(mid == old(v)@);
        }
    }
}

// ── Characters ──────────────────────────────────────────────────────────────

/// Lowers one ASCII upper-case letter.
pub fn lower_char(c: char) -> (r: char)
    ensures
        r == ascii_lower_char(c),
{
    if 'A' <= c && c <= 'Z' {
        let b: u8 = c as u8;
        (b + 32) as char
    } else {
        c
    }
}

/// `s` with ASCII upper-case letters lowered.
pub fn lower_chars(s: &[char]) -> (r: Vec<char>)
    ensures
        r@ == ascii_lower(s@),
{
    let mut r: Vec<char> = Vec::new();
    let mut i: usize = 0;
    while i < s.len()
        invariant
            i <= s.len(),
            r@ == ascii_lower(s@.take(i as int)),
        decreases s.len() - i,
    {
        r.push(lower_char(s[i]));
        proof {
            assert(ascii_lower(s@.take(i as int + 1)) == ascii_lower(s@.take(i as int)).push(
                ascii_lower_char(s@[i as int]),
            ));
        }
        i = i + 1;
    }
    proof {
        assert(s@.take(s.len() as int) == s@);
    }
    r
}

/// Whether two character sequences are equal.
pub fn chars_equal(a: &[char], b: &[char]) -> (r: bool)
    ensures
        r == (a@ == b@),
{
    if a.len() != b.len() {
        return false;
    }
    let mut i: usize = 0;
    while i < a.len()
        invariant
            a.len() == b.len(),
            i <= a.len(),
            forall|k: int| 0 <= k < i ==> a@[k] == b@[k],
        decreases a.len() - i,
    {
        if a[i] != b[i] {
            return false;
        }
        i = i + 1;
    }
    proof {
        assert(a@ =~= b@);
    }
    true
}

/// Whether `pat` occurs in `s` at index `at`.
fn occurs_at_exec(s: &[char], pat: &[char], at: usize) -> (r: bool)
    requires
        at + pat.len() <= s.len(),
    ensures
        r == occurs_at(s@, pat@, at as int),
{
    let mut k: usize = 0;
    while k < pat.len()
        invariant
            at + pat.len() <= s.len(),
            k <= pat.len(),
            forall|j: int| 0 <= j < k ==> s@[at + j] == pat@[j],
        decreases pat.len() - k,
    {
        if s[at + k] != pat[k] {
            proof {
                assert(s@.subrange(at as int, at + pat.len())[k as int] != pat@[k as int]);
            }
            return false;
        }
        k = k + 1;
    }
    proof {
        assert(s@.subrange(at as int, at + pat.len()) =~= pat@);
    }
    true
}

/// Whether `pat` occurs somewhere in `s`.
pub fn contains_chars(s: &[char], pat: &[char]) -> (r: bool)
    ensures
        r == contains_text(s@, pat@),
{
    if pat.len() > s.len() {
        return false;
    }
    if pat.len() == 0 {
        proof {
            assert(s@.subrange(0, 0) =~= pat@);
            assert(occurs_at(s@, pat@, 0));
        }
        return true;
    }
    let last = s.len() - pat.len();
    let mut i: usize = 0;
    while i <= last
        invariant
            last == s.len() - pat.len(),
            0 < pat.len() <= s.len(),
            i <= last + 1,
            forall|j: int| 0 <= j < i ==> !occurs_at(s@, pat@, j),
        decreases last + 1 - i,
    {
        if occurs_at_exec(s, pat, i) {
            return true;
        }
        i = i + 1;
    }
    false
}

/// Whether `s` begins with `prefix`.
pub fn starts_with_chars(s: &[char], prefix: &[char]) -> (r: bool)
    ensures
        r == has_prefix(s@, prefix@),
{
    if prefix.len() > s.len() {
        return false;
    }
    let r = occurs_at_exec(s, prefix, 0);
    proof {
        assert(s@.take(prefix.len() as int) == s@.subrange(0, prefix.len() as int));
    }
    r
}

/// The characters of `s` from index `from` on.
pub fn chars_from(s: &[char], from: usize) -> (r: Vec<char>)
    requires
        from <= s.len(),
    ensures
        r@ == s@.skip(from as int),
{
    let mut r: Vec<char> = Vec::new();
    let mut i: usize = from;
    while i < s.len()
        invariant
            from <= i <= s.len(),
            r@ == s@.subrange(from as int, i as int),
        decreases s.len() - i,
    {
        r.push(s[i]);
        proof {
            assert(s@.subrange(from as int, i + 1) == s@.subrange(from as int, i as int).push(
                s@[i as int],
            ));
        }
        i = i + 1;
    }
    r
}

/// The characters of `s` in `[from, to)`.
pub fn chars_between(s: &[char], from: usize, to: usize) -> (r: Vec<char>)
    requires
        from <= to <= s.len(),
    ensures
        r@ == s@.subrange(from as int, to as int),
{
    let mut r: Vec<char> = Vec::new();
    let mut i: usize = from;
    while i < to
        invariant
            from <= i <= to,
            to <= s.len(),
            r@ == s@.subrange(from as int, i as int),
        decreases to - i,
    {
        r.push(s[i]);
        proof {
            assert(s@.subrange(from as int, i + 1) == s@.subrange(from as int, i as int).push(
                s@[i as int],
            ));
        }
        i = i + 1;
    }
    r
}

proof fn lemma_trim_start_skip(s: Seq<char>, i: int)
    requires
        0 <= i <= s.len(),
        forall|k: int| 0 <= k < i ==> unicode_white_space(s[k]),
    ensures
        trim_start(s) == trim_start(s.skip(i)),
    decreases i,
{
    if i > 0 {
        assert(s.skip(1) == s.drop_first());
        lemma_trim_start_skip(s.drop_first(), i - 1);
        assert(s.drop_first().skip(i - 1) == s.skip(i));
    } else {
        assert(s.skip(0) == s);
    }
}

proof fn lemma_trim_end_take(s: Seq<char>, j: int)
    requires
        0 <= j <= s.len(),
        forall|k: int| j <= k < s.len() ==> unicode_white_space(s[k]),
    ensures
        trim_end(s) == trim_end(s.take(j)),
    decreases s.len() - j,
{
    if j < s.len() {
        assert(s.take(s.len() - 1) == s.drop_last());
        lemma_trim_end_take(s.drop_last(), j);
        assert(s.drop_last().take(j) == s.take(j));
    } else {
        assert(s.take(j) == s);
    }
}

/// `s` without leading and trailing white space.
pub fn trim_chars(s: &[char]) -> (r: Vec<char>)
    ensures
        r@ == trim(s@),
{
    let mut start: usize = 0;
    while start < s.len() && char_is_whitespace(s[start])
        invariant
            start <= s.len(),
            forall|k: int| 0 <= k < start ==> unicode_white_space(s@[k]),
        decreases s.len() - start,
    {
        start = start + 1;
    }
    let mut end: usize = s.len();
    while end > start && char_is_whitespace(s[end - 1])
        invariant
            start <= end <= s.len(),
            forall|k: int| end <= k < s.len() ==> unicode_white_space(s@[k]),
        decreases end,
    {
        end = end - 1;
    }
    proof {
        lemma_trim_start_skip(s@, start as int);
        let rest = s@.skip(start as int);
        if start < s.len() {
            assert(!unicode_white_space(rest[0]));
        }
        assert(trim_start(rest) == rest);
        assert forall|k: int| end - start <= k < rest.len() implies unicode_white_space(rest[k]) by {
            assert(rest[k] == s@[start + k]);
        }
        lemma_trim_end_take(rest, end - start);
        let kept = rest.take(end - start);
        if end > start {
            assert(kept.last() == s@[end - 1]);
        }
        assert(trim_end(kept) == kept);
        assert(kept == s@.subrange(start as int, end as int));
    }
    chars_between(s, start, end)
}

/// The white-space separated words of `s`.
pub fn words_of(s: &[char]) -> (r: Vec<Vec<char>>)
    ensures
        char_views(r@) == words(s@),
{
    let mut done: Vec<Vec<char>> = Vec::new();
    let mut current: Vec<char> = Vec::new();
    let mut i: usize = 0;
    while i < s.len()
        invariant
            i <= s.len(),
            (char_views(done@), current@) == word_scan(s@.take(i as int)),
        decreases s.len() - i,
    {
        proof {
            assert(s@.take(i as int + 1).drop_last() == s@.take(i as int));
            assert(s@.take(i as int + 1).last() == s@[i as int]);
        }
        if char_is_whitespace(s[i]) {
            if current.len() > 0 {
                let ghost prev = done@;
                let word = current;
                done.push(word);
                current = Vec::new();
                proof {
                    assert(done@.drop_last() == prev);
                    assert(char_views(done@) == char_views(prev).push(done@.last()@));
                }
            } else {
                current = Vec::new();
            }
        } else {
            current.push(s[i]);
        }
        i = i + 1;
    }
    proof {
        assert(s@.take(s.len() as int) == s@);
    }
    if current.len() > 0 {
        let ghost prev = done@;
        done.push(current);
        proof {
            assert(done@.drop_last() == prev);
            assert(char_views(done@) == char_views(prev).push(done@.last()@));
        }
    }
    done
}


// ── Ordering ────────────────────────────────────────────────────────────────

/// Lexicographic order on character sequences by code point, the order of
/// `String`'s `Ord` (UTF-8 byte order agrees with code-point order).
pub open spec fn lex_le(a: Seq<char>, b: Seq<char>) -> bool
    decreases a.len(),
{
    if a.len() == 0 {
        true
    } else if b.len() == 0 {
        false
    } else if a[0] != b[0] {
        a[0] < b[0]
    } else {
        lex_le(a.drop_first(), b.drop_first())
    }
}

/// `lex_le` is transitive.
pub proof fn lemma_lex_le_transitive(a: Seq<char>, b: Seq<char>, c: Seq<char>)
    requires
        lex_le(a, b),
        lex_le(b, c),
    ensures
        lex_le(a, c),
    decreases a.len(),
{
    if a.len() > 0 && b.len() > 0 && c.len() > 0 && a[0] == b[0] && b[0] == c[0] {
        lemma_lex_le_transitive(a.drop_first(), b.drop_first(), c.drop_first());
    }
}

/// Any two sequences are comparable under `lex_le`.
pub proof fn lemma_lex_le_total(a: Seq<char>, b: Seq<char>)
    ensures
        lex_le(a, b) || lex_le(b, a),
    decreases a.len(),
{
    if a.len() > 0 && b.len() > 0 && a[0] == b[0] {
        lemma_lex_le_total(a.drop_first(), b.drop_first());
    }
}

/// Compares two character sequences lexicographically.
pub fn lex_le_chars(a: &[char], b: &[char]) -> (r: bool)
    ensures
        r == lex_le(a@, b@),
{
    let mut i: usize = 0;
    proof {
        assert(a@.skip(0) == a@);
        assert(b@.skip(0) == b@);
    }
    while i < a.len() && i < b.len() && a[i] == b[i]
        invariant
            i <= a.len(),
            i <= b.len(),
            lex_le(a@, b@) == lex_le(a@.skip(i as int), b@.skip(i as int)),
        decreases a.len() - i,
    {
        proof {
            assert(a@.skip(i as int).drop_first() == a@.skip(i as int + 1));
            assert(b@.skip(i as int).drop_first() == b@.skip(i as int + 1));
        }
        i = i + 1;
    }
    if i == a.len() {
        true
    } else if i == b.len() {
        false
    } else {
        a[i] < b[i]
    }
}

/// An element survives a filter exactly when it is in the sequence and
/// passes the predicate.
pub proof fn lemma_filter_contains_iff<A>(s: Seq<A>, p: spec_fn(A) -> bool, x: A)
    ensures
        s.filter(p).contains(x) <==> (s.contains(x) && p(x)),
{
    if s.filter(p).contains(x) {
        s.lemma_filter_contains_rev(p, x);
        let i = choose|i: int| 0 <= i < s.filter(p).len() && s.filter(p)[i] == x;
        s.lemma_filter_pred(p, i);
    }
    if s.contains(x) && p(x) {
        let i = choose|i: int| 0 <= i < s.len() && s[i] == x;
        s.lemma_filter_contains(p, i);
    }
}

/// Filtering a sequence extended by one element.
pub proof fn lemma_filter_push<A>(s: Seq<A>, p: spec_fn(A) -> bool, e: A)
    ensures
        s.push(e).filter(p) == (if p(e) { s.filter(p).push(e) } else { s.filter(p) }),
{
    reveal(Seq::filter);
    assert(s.push(e).drop_last() == s);
}

/// Keys in ascending `lex_le` order.
pub open spec fn keys_ascending(keys: Seq<Seq<char>>) -> bool {
    forall|i: int, j: int| 0 <= i < j < keys.len() ==> lex_le(#[trigger] keys[i], #[trigger] keys[j])
}

proof fn lemma_insert_keeps_ascending(keys: Seq<Seq<char>>, pos: int, key: Seq<char>)
    requires
        keys_ascending(keys),
        0 <= pos <= keys.len(),
        forall|k: int| 0 <= k < pos ==> lex_le(#[trigger] keys[k], key),
        pos < keys.len() ==> lex_le(key, keys[pos]),
    ensures
        keys_ascending(keys.insert(pos, key)),
{
    let n = keys.insert(pos, key);
    assert forall|i: int, j: int| 0 <= i < j < n.len() implies lex_le(#[trigger] n[i], #[trigger] n[j]) by {
        if j < pos {
            assert(n[i] == keys[i] && n[j] == keys[j]);
        } else if j == pos {
            assert(n[i] == keys[i]);
        } else if i < pos {
            assert(n[i] == keys[i] && n[j] == keys[j - 1]);
            lemma_lex_le_transitive(keys[i], key, keys[pos]);
            if j - 1 > pos {
                lemma_lex_le_transitive(keys[i], keys[pos], keys[j - 1]);
            }
        } else if i == pos {
            assert(n[j] == keys[j - 1]);
            if j - 1 > pos {
                lemma_lex_le_transitive(key, keys[pos], keys[j - 1]);
            }
        } else {
            assert(n[i] == keys[i - 1] && n[j] == keys[j - 1]);
        }
    }
}

/// Reorders `items` so that their keys ascend; `keys[i]` is the key of
/// `items[i]`, and `key` states what a key is.
pub fn sort_by_keys<T>(
    items: Vec<T>,
    keys: Vec<Vec<char>>,
    Ghost(key): Ghost<spec_fn(T) -> Seq<char>>,
) -> (r: Vec<T>)
    requires
        items.len() == keys.len(),
        forall|i: int| 0 <= i < items.len() ==> (#[trigger] keys@[i])@ == key(items@[i]),
    ensures
        r@.to_multiset() == items@.to_multiset(),
        forall|i: int, j: int|
            0 <= i < j < r.len() ==> lex_le(key(#[trigger] r@[i]), key(#[trigger] r@[j])),
{
    let ghost all = items@;
    let mut rest = items;
    let mut rest_keys = keys;
    let mut r: Vec<T> = Vec::new();
    let mut r_keys: Vec<Vec<char>> = Vec::new();
    proof {
        vstd::seq_lib::to_multiset_len(r@);
        vstd::multiset::lemma_multiset_empty_len(r@.to_multiset());
        assert(r@.to_multiset() =~= vstd::multiset::Multiset::<T>::empty());
    }
    while rest.len() > 0
        invariant
            rest.len() == rest_keys.len(),
            r.len() == r_keys.len(),
            forall|i: int| 0 <= i < rest.len() ==> (#[trigger] rest_keys@[i])@ == key(rest@[i]),
            forall|i: int| 0 <= i < r.len() ==> (#[trigger] r_keys@[i])@ == key(r@[i]),
            keys_ascending(char_views(r_keys@)),
            r@.to_multiset().add(rest@.to_multiset()) == all.to_multiset(),
        decreases rest.len(),
    {
        let ghost before_rest = rest@;
        let ghost before_keys = rest_keys@;
        let x = rest.pop().unwrap();
        let kx = rest_keys.pop().unwrap();
        proof {
            assert(before_rest == rest@.push(x));
            vstd::seq_lib::to_multiset_build(rest@, x);
            assert(kx == before_keys[before_keys.len() - 1]);
            assert(x == before_rest[before_rest.len() - 1]);
        }
        let mut pos: usize = 0;
        while pos < r_keys.len() && !lex_le_chars(kx.as_slice(), r_keys[pos].as_slice())
            invariant
                pos <= r_keys.len(),
                forall|k: int| 0 <= k < pos ==> !lex_le(kx@, (#[trigger] r_keys@[k])@),
            decreases r_keys.len() - pos,
        {
            pos = pos + 1;
        }
        proof {
            assert forall|k: int| 0 <= k < pos implies lex_le(#[trigger] char_views(r_keys@)[k], kx@) by {
                lemma_lex_le_total(kx@, r_keys@[k]@);
            }
            lemma_insert_keeps_ascending(char_views(r_keys@), pos as int, kx@);
            assert(char_views(r_keys@).insert(pos as int, kx@) == char_views(r_keys@.insert(pos as int, kx)));
            vstd::seq_lib::to_multiset_insert(r@, pos as int, x);
        }
        let ghost old_r = r@;
        let ghost old_keys = r_keys@;
        r.insert(pos, x);
        r_keys.insert(pos, kx);
        proof {
            assert forall|k: int| 0 <= k < r.len() implies (#[trigger] r_keys@[k])@ == key(r@[k]) by {
                if k < pos {
                    assert(r_keys@[k] == old_keys[k] && r@[k] == old_r[k]);
                } else if k > pos {
                    assert(r_keys@[k] == old_keys[k - 1] && r@[k] == old_r[k - 1]);
                }
            }
            assert(r@.to_multiset().add(rest@.to_multiset()) =~= all.to_multiset());
        }
    }
    proof {
        vstd::seq_lib::to_multiset_len(rest@);
        vstd::multiset::lemma_multiset_empty_len(rest@.to_multiset());
        assert(rest@.to_multiset() =~= vstd::multiset::Multiset::<T>::empty());
        assert(r@.to_multiset() =~= all.to_multiset());
        assert forall|i: int, j: int| 0 <= i < j < r.len() implies lex_le(
            key(#[trigger] r@[i]),
            key(#[trigger] r@[j]),
        ) by {
            assert(char_views(r_keys@)[i] == r_keys@[i]@);
            assert(char_views(r_keys@)[j] == r_keys@[j]@);
        }
    }
    r
}

/// Mapping two sequences with the same elements gives sequences with the
/// same elements.
pub proof fn lemma_map_values_same_multiset<A, B>(a: Seq<A>, b: Seq<A>, f: spec_fn(A) -> B)
    requires
        a.to_multiset() == b.to_multiset(),
    ensures
        a.map_values(f).to_multiset() == b.map_values(f).to_multiset(),
    decreases a.len(),
{
    broadcast use vstd::multiset::group_multiset_axioms;

    vstd::seq_lib::to_multiset_len(a);
    vstd::seq_lib::to_multiset_len(b);
    if a.len() == 0 {
        assert(a.map_values(f) =~= Seq::<B>::empty());
        assert(b.map_values(f) =~= Seq::<B>::empty());
    } else {
        let x = a.last();
        let init = a.drop_last();
        assert(a == init.push(x));
        vstd::seq_lib::to_multiset_build(init, x);
        vstd::seq_lib::to_multiset_contains(b, x);
        assert(b.to_multiset().count(x) > 0);
        let k = choose|k: int| 0 <= k < b.len() && b[k] == x;
        let rest = b.remove(k);
        vstd::seq_lib::to_multiset_remove(b, k);
        assert(init.to_multiset() =~= rest.to_multiset());
        lemma_map_values_same_multiset(init, rest, f);
        assert(a.map_values(f) =~= init.map_values(f).push(f(x)));
        vstd::seq_lib::to_multiset_build(init.map_values(f), f(x));
        let mb = b.map_values(f);
        assert(mb.remove(k) =~= rest.map_values(f));
        vstd::seq_lib::to_multiset_remove(mb, k);
        assert(mb[k] == f(x));
        assert(mb.contains(f(x)));
        vstd::seq_lib::to_multiset_contains(mb, f(x));
        let m = mb.to_multiset();
        assert(m.count(f(x)) > 0);
        assert(m =~= m.remove(f(x)).insert(f(x)));
        assert(mb.to_multiset() == rest.map_values(f).to_multiset().insert(f(x)));
    }
}

} // verus!
