//! Text as sequences of characters: the splitting, trimming and number
//! formatting that the log and the configuration forms are made of.

use vstd::prelude::*;

verus! {

/// The characters of `s`.
pub fn chars_of(s: &str) -> (r: Vec<char>)
    ensures
        r@ == s@,
{
    let mut r: Vec<char> = Vec::new();
    for c in it: s.chars()
        invariant
            it.seq() == s@,
            r@ == it.seq().take(it.index() as int),
    {
        r.push(c);
        proof {
            assert(r@ =~= it.seq().take(it.index() + 1));
        }
    }
    proof {
        assert(r@ =~= s@);
    }
    r
}

/// Calls `FromIterator<char>` for `String` (through `Iterator::collect`):
/// the string of the given characters.
#[verifier::external_body]
pub fn string_from_chars(cs: &[char]) -> (r: String)
    ensures
        r@ == cs@,
{
    cs.iter().collect()
}

/// The decimal digit of `d`.
pub open spec fn spec_digit(d: nat) -> char {
    ((48 + d) as u8) as char
}

/// The decimal notation of `n`, without leading zeros.
pub open spec fn spec_decimal(n: nat) -> Seq<char>
    decreases n,
{
    if n < 10 {
        seq![spec_digit(n)]
    } else {
        spec_decimal(n / 10).push(spec_digit(n % 10))
    }
}

fn push_decimal(out: &mut Vec<char>, n: u64)
    ensures
        final(out)@ == old(out)@ + spec_decimal(n as nat),
    decreases n,
{
    if n >= 10 {
        push_decimal(out, n / 10);
    }
    let d = (n % 10) as u8;
    out.push((48u8 + d) as char);
    proof {
        if n >= 10 {
            assert(final(out)@ =~= old(out)@ + spec_decimal((n / 10) as nat).push(spec_digit((n % 10) as nat)));
        } else {
            assert(final(out)@ =~= old(out)@ + seq![spec_digit(n as nat)]);
        }
    }
}

/// The decimal notation of `n`.
pub fn decimal(n: u64) -> (r: String)
    ensures
        r@ == spec_decimal(n as nat),
{
    let mut cs: Vec<char> = Vec::new();
    push_decimal(&mut cs, n);
    proof {
        assert(cs@ =~= spec_decimal(n as nat));
    }
    string_from_chars(cs.as_slice())
}

/// Whether `c` has the Unicode property White_Space (PropList.txt): tab,
/// line feed, vertical tab, form feed, carriage return, space, next line,
/// no-break space, ogham space mark, the spaces from en quad to hair space,
/// line and paragraph separators, narrow no-break space, medium
/// mathematical space and ideographic space.
pub open spec fn spec_is_whitespace(c: char) -> bool {
    let v = c as u32;
    (0x09 <= v && v <= 0x0D) || v == 0x20 || v == 0x85 || v == 0xA0 || v == 0x1680 || (0x2000 <= v
        && v <= 0x200A) || v == 0x2028 || v == 0x2029 || v == 0x202F || v == 0x205F || v == 0x3000
}

/// Whether `c` is whitespace, as `char::is_whitespace` decides it: whether
/// it has the White_Space property.
pub fn is_whitespace(c: char) -> (r: bool)
    ensures
        r == spec_is_whitespace(c),
{
    ('\u{9}' <= c && c <= '\u{d}') || c == ' ' || c == '\u{85}' || c == '\u{a0}' || c == '\u{1680}'
        || ('\u{2000}' <= c && c <= '\u{200a}') || c == '\u{2028}' || c == '\u{2029}' || c
        == '\u{202f}' || c == '\u{205f}' || c == '\u{3000}'
}

/// `s` without its leading whitespace.
pub open spec fn spec_trim_start(s: Seq<char>) -> Seq<char>
    decreases s.len(),
{
    if s.len() > 0 && spec_is_whitespace(s[0]) {
        spec_trim_start(s.drop_first())
    } else {
        s
    }
}

/// `s` without its trailing whitespace.
pub open spec fn spec_trim_end(s: Seq<char>) -> Seq<char>
    decreases s.len(),
{
    if s.len() > 0 && spec_is_whitespace(s.last()) {
        spec_trim_end(s.drop_last())
    } else {
        s
    }
}

/// `s` without leading and trailing whitespace.
pub open spec fn spec_trim(s: Seq<char>) -> Seq<char> {
    spec_trim_end(spec_trim_start(s))
}

/// The characters of `cs` from `start` to `end`.
pub fn sub_chars(cs: &[char], start: usize, end: usize) -> (r: Vec<char>)
    requires
        start <= end <= cs@.len(),
    ensures
        r@ == cs@.subrange(start as int, end as int),
{
    let mut r: Vec<char> = Vec::new();
    for i in start..end
        invariant
            start <= end <= cs@.len(),
            r@ == cs@.subrange(start as int, i as int),
    {
        r.push(cs[i]);
        proof {
            assert(r@ =~= cs@.subrange(start as int, i + 1));
        }
    }
    r
}

/// `cs` without leading and trailing whitespace.
pub fn trim(cs: &[char]) -> (r: Vec<char>)
    ensures
        r@ == spec_trim(cs@),
{
    let n = cs.len();
    let mut i: usize = 0;
    proof {
        assert(cs@.skip(0) =~= cs@);
    }
    while i < n && is_whitespace(cs[i])
        invariant
            n == cs@.len(),
            i <= n,
            spec_trim_start(cs@) == spec_trim_start(cs@.skip(i as int)),
        decreases n - i,
    {
        proof {
            assert(cs@.skip(i as int).drop_first() =~= cs@.skip(i + 1));
        }
        i = i + 1;
    }
    let mut j: usize = n;
    proof {
        assert(spec_trim_start(cs@) == cs@.skip(i as int));
        assert(cs@.subrange(i as int, n as int) =~= cs@.skip(i as int));
    }
    while j > i && is_whitespace(cs[j - 1])
        invariant
            n == cs@.len(),
            i <= j <= n,
            spec_trim_end(cs@.subrange(i as int, n as int)) == spec_trim_end(
                cs@.subrange(i as int, j as int),
            ),
        decreases j,
    {
        proof {
            assert(cs@.subrange(i as int, j as int).drop_last() =~= cs@.subrange(
                i as int,
                j - 1,
            ));
        }
        j = j - 1;
    }
    sub_chars(cs, i, j)
}

/// Whether `a` and `b` are the same characters.
pub fn chars_eq(a: &[char], b: &[char]) -> (r: bool)
    ensures
        r == (a@ == b@),
{
    if a.len() != b.len() {
        return false;
    }
    let n = a.len();
    for i in 0..n
        invariant
            n == a@.len(),
            n == b@.len(),
            forall|k: int| 0 <= k < i ==> a@[k] == b@[k],
    {
        if a[i] != b[i] {
            return false;
        }
    }
    proof {
        assert(a@ =~= b@);
    }
    true
}

/// Whether `s` starts with `p`.
pub open spec fn spec_starts_with(s: Seq<char>, p: Seq<char>) -> bool {
    p.len() <= s.len() && s.subrange(0, p.len() as int) == p
}

/// Whether `s` starts with `p`.
pub fn starts_with(s: &[char], p: &[char]) -> (r: bool)
    ensures
        r == spec_starts_with(s@, p@),
{
    if p.len() > s.len() {
        return false;
    }
    let head = sub_chars(s, 0, p.len());
    chars_eq(head.as_slice(), p)
}

/// Whether `t` occurs in `s`.
pub open spec fn spec_contains_text(s: Seq<char>, t: Seq<char>) -> bool {
    exists|i: int| 0 <= i && i + t.len() <= s.len() && #[trigger] s.subrange(i, i + t.len()) == t
}

/// Whether `t` occurs in `s`.
pub fn contains_text(s: &[char], t: &[char]) -> (r: bool)
    ensures
        r == spec_contains_text(s@, t@),
{
    let n = s.len();
    let m = t.len();
    if m > n {
        return false;
    }
    if m == 0 {
        proof {
            let z: int = 0;
            assert(s@.subrange(z, z + t@.len()) =~= t@);
        }
        return true;
    }
    let last = n - m;
    let mut i: usize = 0;
    while i <= last
        invariant
            n == s@.len(),
            m == t@.len(),
            m >= 1,
            last == n - m,
            i <= last + 1,
            forall|k: int| 0 <= k < i ==> #[trigger] s@.subrange(k, k + t@.len()) != t@,
        decreases last + 1 - i,
    {
        let window = sub_chars(s, i, i + m);
        if chars_eq(window.as_slice(), t) {
            return true;
        }
        i = i + 1;
    }
    false
}

/// The index of the first `c` in `s`.
pub open spec fn spec_find(s: Seq<char>, c: char) -> Option<int> {
    if s.contains(c) {
        Some(choose|i: int| 0 <= i < s.len() && s[i] == c && forall|k: int| 0 <= k < i ==> s[k] != c)
    } else {
        None
    }
}

/// The index of the first `c` in `s`.
pub fn find(s: &[char], c: char) -> (r: Option<usize>)
    ensures
        match r {
            Some(i) => i < s@.len() && s@[i as int] == c && forall|k: int| 0 <= k < i ==> s@[k] != c,
            None => !s@.contains(c),
        },
        r matches Some(i) ==> spec_find(s@, c) == Some(i as int),
        r is None ==> spec_find(s@, c) is None,
{
    let n = s.len();
    for i in 0..n
        invariant
            n == s@.len(),
            forall|k: int| 0 <= k < i ==> s@[k] != c,
    {
        if s[i] == c {
            proof {
                assert(s@.contains(c));
                let j = choose|j: int| 0 <= j < s@.len() && s@[j] == c && forall|k: int| 0 <= k < j ==> s@[k] != c;
                if j < i {
                } else if j > i {
                    assert(s@[i as int] == c);
                }
            }
            return Some(i);
        }
    }
    None
}

/// `s` split at its first `c`: what stands before and after it.
pub open spec fn spec_split_once(s: Seq<char>, c: char) -> Option<(Seq<char>, Seq<char>)> {
    match spec_find(s, c) {
        Some(i) => Some((s.subrange(0, i), s.subrange(i + 1, s.len() as int))),
        None => None,
    }
}

/// `s` split at its first `c`.
pub fn split_once(s: &[char], c: char) -> (r: Option<(Vec<char>, Vec<char>)>)
    ensures
        match spec_split_once(s@, c) {
            Some((a, b)) => r matches Some((x, y)) && x@ == a && y@ == b,
            None => r is None,
        },
{
    match find(s, c) {
        Some(i) => {
            let n = s.len();
            Some((sub_chars(s, 0, i), sub_chars(s, i + 1, n)))
        },
        None => None,
    }
}

/// `c` in lower case when it is an ASCII capital letter, else `c`.
pub open spec fn spec_ascii_lower(c: char) -> char {
    if 'A' <= c && c <= 'Z' {
        ((c as u32) + 32) as char
    } else {
        c
    }
}

/// `s` with its ASCII capital letters in lower case.
pub open spec fn spec_to_ascii_lowercase(s: Seq<char>) -> Seq<char> {
    s.map_values(|c: char| spec_ascii_lower(c))
}

/// `s` with its ASCII capital letters in lower case.
pub fn to_ascii_lowercase(s: &[char]) -> (r: Vec<char>)
    ensures
        r@ == spec_to_ascii_lowercase(s@),
{
    let mut r: Vec<char> = Vec::new();
    let n = s.len();
    for i in 0..n
        invariant
            n == s@.len(),
            r@ == spec_to_ascii_lowercase(s@.subrange(0, i as int)),
    {
        let c = s[i];
        let l = if 'A' <= c && c <= 'Z' {
            ((c as u8) + 32) as char
        } else {
            c
        };
        r.push(l);
        proof {
            assert(r@ =~= spec_to_ascii_lowercase(s@.subrange(0, i + 1)));
        }
    }
    proof {
        assert(s@.subrange(0, n as int) =~= s@);
    }
    r
}

/// The views of a sequence of character vectors.
pub open spec fn views(p: Seq<Vec<char>>) -> Seq<Seq<char>> {
    p.map_values(|v: Vec<char>| v@)
}

/// The lines of `s` read so far, and the line being read, with line
/// terminators left out: each line feed ends a line.
pub open spec fn spec_lines_acc(s: Seq<char>) -> (Seq<Seq<char>>, Seq<char>)
    decreases s.len(),
{
    if s.len() == 0 {
        (seq![], seq![])
    } else {
        let (done, cur) = spec_lines_acc(s.drop_last());
        if s.last() == '\n' {
            (done.push(spec_strip_cr(cur)), seq![])
        } else {
            (done, cur.push(s.last()))
        }
    }
}

/// A line without its final carriage return.
pub open spec fn spec_strip_cr(l: Seq<char>) -> Seq<char> {
    if l.len() > 0 && l.last() == '\r' {
        l.drop_last()
    } else {
        l
    }
}

/// The lines of `s`, as `str::lines` gives them: a line ends at a line feed
/// or at a carriage return and line feed, which are left out; the final
/// line needs no terminator, and a final terminator starts no empty line.
pub open spec fn spec_lines(s: Seq<char>) -> Seq<Seq<char>> {
    let (done, cur) = spec_lines_acc(s);
    if cur.len() > 0 {
        done.push(spec_strip_cr(cur))
    } else {
        done
    }
}

fn strip_cr(l: Vec<char>) -> (r: Vec<char>)
    ensures
        r@ == spec_strip_cr(l@),
{
    let n = l.len();
    if n > 0 && l[n - 1] == '\r' {
        sub_chars(l.as_slice(), 0, n - 1)
    } else {
        l
    }
}

/// The lines of `s`.
pub fn lines(s: &[char]) -> (r: Vec<Vec<char>>)
    ensures
        views(r@) == spec_lines(s@),
{
    let mut done: Vec<Vec<char>> = Vec::new();
    let mut cur: Vec<char> = Vec::new();
    let n = s.len();
    for i in 0..n
        invariant
            n == s@.len(),
            (views(done@), cur@) == spec_lines_acc(s@.take(i as int)),
    {
        proof {
            assert(s@.take(i + 1).drop_last() =~= s@.take(i as int));
        }
        let c = s[i];
        if c == '\n' {
            let line = strip_cr(cur);
            done.push(line);
            cur = Vec::new();
            proof {
                assert(views(done@) =~= spec_lines_acc(s@.take(i + 1)).0);
            }
        } else {
            cur.push(c);
        }
    }
    proof {
        assert(s@.take(n as int) =~= s@);
    }
    if cur.len() > 0 {
        let line = strip_cr(cur);
        done.push(line);
        proof {
            assert(views(done@) =~= spec_lines(s@));
        }
    }
    done
}

/// The words of `s` read so far, and the word being read: whitespace
/// separates words.
pub open spec fn spec_words_acc(s: Seq<char>) -> (Seq<Seq<char>>, Seq<char>)
    decreases s.len(),
{
    if s.len() == 0 {
        (seq![], seq![])
    } else {
        let (done, cur) = spec_words_acc(s.drop_last());
        if spec_is_whitespace(s.last()) {
            if cur.len() > 0 {
                (done.push(cur), seq![])
            } else {
                (done, seq![])
            }
        } else {
            (done, cur.push(s.last()))
        }
    }
}

/// The words of `s`, as `str::split_whitespace` gives them: the non-empty
/// runs of characters that are not whitespace.
pub open spec fn spec_words(s: Seq<char>) -> Seq<Seq<char>> {
    let (done, cur) = spec_words_acc(s);
    if cur.len() > 0 {
        done.push(cur)
    } else {
        done
    }
}

/// The words of `s`.
pub fn split_whitespace(s: &[char]) -> (r: Vec<Vec<char>>)
    ensures
        views(r@) == spec_words(s@),
{
    let mut done: Vec<Vec<char>> = Vec::new();
    let mut cur: Vec<char> = Vec::new();
    let n = s.len();
    for i in 0..n
        invariant
            n == s@.len(),
            (views(done@), cur@) == spec_words_acc(s@.take(i as int)),
    {
        proof {
            assert(s@.take(i + 1).drop_last() =~= s@.take(i as int));
        }
        let c = s[i];
        if is_whitespace(c) {
            if cur.len() > 0 {
                done.push(cur);
                proof {
                    assert(views(done@) =~= spec_words_acc(s@.take(i + 1)).0);
                }
            }
            cur = Vec::new();
        } else {
            cur.push(c);
        }
    }
    proof {
        assert(s@.take(n as int) =~= s@);
    }
    if cur.len() > 0 {
        done.push(cur);
        proof {
            assert(views(done@) =~= spec_words(s@));
        }
    }
    done
}

/// Whether `c` is an ASCII digit.
pub open spec fn spec_is_digit(c: char) -> bool {
    '0' <= c && c <= '9'
}

/// The value of a string of decimal digits.
pub open spec fn spec_digits_value(s: Seq<char>) -> nat
    decreases s.len(),
{
    if s.len() == 0 {
        0
    } else {
        spec_digits_value(s.drop_last()) * 10 + ((s.last() as u32) - 48) as nat
    }
}

/// The number that a text of an optional `+` followed by one or more ASCII
/// digits denotes; none for any other text.
pub open spec fn spec_unsigned_text(s: Seq<char>) -> Option<nat> {
    let d = if s.len() > 0 && s[0] == '+' {
        s.drop_first()
    } else {
        s
    };
    if d.len() > 0 && forall|i: int| 0 <= i < d.len() ==> spec_is_digit(#[trigger] d[i]) {
        Some(spec_digits_value(d))
    } else {
        None
    }
}

/// The text of the error that `u64::from_str` reports for a text.
pub uninterp spec fn spec_parse_u64_error(s: Seq<char>) -> Seq<char>;

/// Calls `u64::from_str` (through `str::parse`), which reads an optional
/// `+` and one or more ASCII digits whose value fits in 64 bits; an error
/// is given as the text of its `Display`.
#[verifier::external_body]
pub fn parse_u64(s: &str) -> (r: Result<u64, String>)
    ensures
        match r {
            Ok(v) => spec_unsigned_text(s@) == Some(v as nat),
            Err(e) => e@ == spec_parse_u64_error(s@) && match spec_unsigned_text(s@) {
                Some(n) => n > u64::MAX,
                None => true,
            },
        },
{
    match s.parse::<u64>() {
        Ok(v) => Ok(v),
        Err(e) => Err(e.to_string()),
    }
}

/// The UTF-16 code units of a character.
pub open spec fn spec_utf16_char(c: char) -> Seq<u16> {
    let v = c as u32;
    if v < 0x10000 {
        seq![v as u16]
    } else {
        let w = (v - 0x10000) as u32;
        seq![(0xD800 + w / 0x400) as u16, (0xDC00 + w % 0x400) as u16]
    }
}

/// The UTF-16 encoding of a text.
pub open spec fn spec_utf16(s: Seq<char>) -> Seq<u16>
    decreases s.len(),
{
    if s.len() == 0 {
        seq![]
    } else {
        spec_utf16(s.drop_last()) + spec_utf16_char(s.last())
    }
}

/// The UTF-16 encoding of `s`.
pub fn encode_utf16(s: &[char]) -> (r: Vec<u16>)
    ensures
        r@ == spec_utf16(s@),
{
    let mut r: Vec<u16> = Vec::new();
    let n = s.len();
    for i in 0..n
        invariant
            n == s@.len(),
            r@ == spec_utf16(s@.take(i as int)),
    {
        proof {
            assert(s@.take(i + 1).drop_last() =~= s@.take(i as int));
        }
        let c = s[i];
        let v = c as u32;
        proof {
            vstd::utf8::char_is_scalar(c);
        }
        if v < 0x10000 {
            r.push(v as u16);
            proof {
                assert(r@ =~= spec_utf16(s@.take(i + 1)));
            }
        } else {
            let w = v - 0x10000;
            r.push((0xD800 + w / 0x400) as u16);
            r.push((0xDC00 + w % 0x400) as u16);
            proof {
                assert(r@ =~= spec_utf16(s@.take(i + 1)));
            }
        }
    }
    proof {
        assert(s@.take(n as int) =~= s@);
    }
    r
}

/// No character of `s` is whitespace.
pub open spec fn spec_is_token(s: Seq<char>) -> bool {
    forall|i: int| 0 <= i < s.len() ==> !spec_is_whitespace(#[trigger] s[i])
}

/// Reading a run of non-whitespace characters only extends the word being read.
pub proof fn lemma_words_acc_token(p: Seq<char>, w: Seq<char>)
    requires
        spec_is_token(w),
    ensures
        spec_words_acc(p + w) == (spec_words_acc(p).0, spec_words_acc(p).1 + w),
    decreases w.len(),
{
    if w.len() == 0 {
        assert(p + w =~= p);
        assert(spec_words_acc(p).1 + w =~= spec_words_acc(p).1);
    } else {
        let w0 = w.drop_last();
        assert(spec_is_token(w0)) by {
            assert forall|i: int| 0 <= i < w0.len() implies !spec_is_whitespace(#[trigger] w0[i]) by {
                assert(w0[i] == w[i]);
            }
        }
        lemma_words_acc_token(p, w0);
        assert((p + w).drop_last() =~= p + w0);
        assert((p + w).last() == w.last());
        assert(!spec_is_whitespace(w[w.len() - 1]));
        assert((spec_words_acc(p).1 + w0).push(w.last()) =~= spec_words_acc(p).1 + w);
    }
}

/// The words of `s`, a space and a word `w` are those of `s` followed by `w`.
pub proof fn lemma_words_push_word(s: Seq<char>, w: Seq<char>)
    requires
        spec_is_token(w),
        w.len() > 0,
    ensures
        spec_words(s + " "@ + w) == spec_words(s).push(w),
{
    reveal_strlit(" ");
    let sp = s + " "@;
    assert(sp.drop_last() =~= s);
    assert(sp.last() == ' ');
    assert(spec_words_acc(sp) == (spec_words(s), Seq::<char>::empty()));
    lemma_words_acc_token(sp, w);
    assert(Seq::<char>::empty() + w =~= w);
}

/// The words of a single word are that word.
pub proof fn lemma_words_single(w: Seq<char>)
    requires
        spec_is_token(w),
        w.len() > 0,
    ensures
        spec_words(w) == seq![w],
{
    lemma_words_acc_token(Seq::<char>::empty(), w);
    assert(Seq::<char>::empty() + w =~= w);
}

/// Trimming leaves a text that starts and ends with non-whitespace as it is
/// once its final whitespace character is gone.
pub proof fn lemma_trim_drops_final(s: Seq<char>, c: char)
    requires
        s.len() > 0,
        !spec_is_whitespace(s[0]),
        !spec_is_whitespace(s.last()),
        spec_is_whitespace(c),
    ensures
        spec_trim(s.push(c)) == s,
{
    assert(s.push(c)[0] == s[0]);
    assert(spec_trim_start(s.push(c)) == s.push(c));
    assert(s.push(c).drop_last() =~= s);
    assert(spec_trim_end(s) == s);
    assert(spec_trim_end(s.push(c)) == spec_trim_end(s));
}

} // verus!
