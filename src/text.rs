use vstd::prelude::*;

verus! {

/// The characters that carry the Unicode `White_Space` property.
pub open spec fn is_white_space(c: char) -> bool {
    let u = c as u32;
    (9 <= u <= 13) || u == 32 || u == 0x85 || u == 0xa0 || u == 0x1680 || (0x2000 <= u <= 0x200a)
        || u == 0x2028 || u == 0x2029 || u == 0x202f || u == 0x205f || u == 0x3000
}

/// `s` without its trailing white space.
pub open spec fn trim_end(s: Seq<char>) -> Seq<char>
    decreases s.len(),
{
    if s.len() > 0 && is_white_space(s.last()) {
        trim_end(s.drop_last())
    } else {
        s
    }
}

/// Whether a gap of four spaces starts at `i`.
pub open spec fn gap_at(s: Seq<char>, i: int) -> bool {
    0 <= i && i + 4 <= s.len() && s[i] == ' ' && s[i + 1] == ' ' && s[i + 2] == ' ' && s[i + 3]
        == ' '
}

/// The pieces of `s` between four-space gaps, taken from the left without overlap; the piece
/// under way started at `start` and the scan has reached `i`.
pub open spec fn split_gaps_from(s: Seq<char>, start: int, i: int) -> Seq<Seq<char>>
    decreases s.len() - i,
{
    if i >= s.len() || i < start || start < 0 {
        seq![s.subrange(start, s.len() as int)]
    } else if gap_at(s, i) {
        seq![s.subrange(start, i)] + split_gaps_from(s, i + 4, i + 4)
    } else {
        split_gaps_from(s, start, i + 1)
    }
}

/// The pieces of `s` between four-space gaps.
pub open spec fn split_gaps(s: Seq<char>) -> Seq<Seq<char>> {
    split_gaps_from(s, 0, 0)
}

/// A run of `n` spaces.
pub open spec fn spaces(n: nat) -> Seq<char> {
    Seq::new(n, |i: int| ' ')
}

/// `s` right-aligned in a field of `w` characters.
pub open spec fn pad_left(s: Seq<char>, w: nat) -> Seq<char> {
    if s.len() < w {
        spaces((w - s.len()) as nat) + s
    } else {
        s
    }
}

/// `s` left-aligned in a field of `w` characters.
pub open spec fn pad_right(s: Seq<char>, w: nat) -> Seq<char> {
    if s.len() < w {
        s + spaces((w - s.len()) as nat)
    } else {
        s
    }
}

/// The decimal value of a string of ASCII digits.
pub open spec fn decimal_value(s: Seq<char>) -> nat
    decreases s.len(),
{
    if s.len() == 0 {
        0
    } else {
        decimal_value(s.drop_last()) * 10 + ((s.last() as u32) - ('0' as u32)) as nat
    }
}

pub open spec fn is_ascii_digit(c: char) -> bool {
    '0' <= c <= '9'
}

/// The text of an unsigned decimal number, as `str::parse` reads one: an optional `+`,
/// then at least one ASCII digit, with a value that fits `usize`.
pub open spec fn digits_of(s: Seq<char>) -> Seq<char> {
    if s.len() > 0 && s[0] == '+' {
        s.drop_first()
    } else {
        s
    }
}

pub open spec fn parses_as_usize(s: Seq<char>) -> bool {
    let d = digits_of(s);
    d.len() > 0 && (forall|i: int| 0 <= i < d.len() ==> is_ascii_digit(#[trigger] d[i]))
        && decimal_value(d) <= usize::MAX
}

/// Whether `c` is white space.
pub fn is_white_space_char(c: char) -> (r: bool)
    ensures
        r == is_white_space(c),
{
    let u = c as u32;
    (9 <= u && u <= 13) || u == 32 || u == 0x85 || u == 0xa0 || u == 0x1680 || (0x2000 <= u && u
        <= 0x200a) || u == 0x2028 || u == 0x2029 || u == 0x202f || u == 0x205f || u == 0x3000
}

/// The number of characters of `s` that remain after trailing white space is taken off.
pub fn trimmed_len(s: &str) -> (n: usize)
    ensures
        n <= s@.len(),
        trim_end(s@) == s@.subrange(0, n as int),
{
    let mut n = s.unicode_len();
    assert(s@.subrange(0, n as int) == s@);
    while n > 0 && is_white_space_char(s.get_char(n - 1))
        invariant
            n <= s@.len(),
            trim_end(s@) == trim_end(s@.subrange(0, n as int)),
        decreases n,
    {
        assert(s@.subrange(0, n as int).drop_last() == s@.subrange(0, n - 1));
        n = n - 1;
    }
    n
}

/// The pieces of `s` between four-space gaps.
pub fn split_on_gaps(s: &str) -> (r: Vec<String>)
    ensures
        r@.len() == split_gaps(s@).len(),
        forall|k: int| 0 <= k < r@.len() ==> (#[trigger] r@[k])@ == split_gaps(s@)[k],
{
    let len = s.unicode_len();
    let mut r: Vec<String> = Vec::new();
    let mut start: usize = 0;
    let mut i: usize = 0;
    while i < len
        invariant
            len == s@.len(),
            start <= i <= len,
            r@.len() + split_gaps_from(s@, start as int, i as int).len() == split_gaps(s@).len(),
            forall|k: int| 0 <= k < r@.len() ==> (#[trigger] r@[k])@ == split_gaps(s@)[k],
            forall|k: int|
                0 <= k < split_gaps_from(s@, start as int, i as int).len() ==> split_gaps(s@)[r@.len()
                    + k] == #[trigger] split_gaps_from(s@, start as int, i as int)[k],
        decreases len - i,
    {
        let gap = len - i >= 4 && s.get_char(i) == ' ' && s.get_char(i + 1) == ' ' && s.get_char(i + 2)
            == ' ' && s.get_char(i + 3) == ' ';
        if gap {
            let piece = s.substring_char(start, i).to_owned();
            proof {
                let rest = split_gaps_from(s@, i + 4, i + 4);
                assert(split_gaps_from(s@, start as int, i as int) == seq![s@.subrange(
                    start as int,
                    i as int,
                )] + rest);
                assert forall|k: int| 0 <= k < rest.len() implies split_gaps(s@)[r@.len() + 1 + k]
                    == #[trigger] rest[k] by {
                    assert(split_gaps_from(s@, start as int, i as int)[k + 1] == rest[k]);
                }
                assert(split_gaps_from(s@, start as int, i as int)[0] == s@.subrange(
                    start as int,
                    i as int,
                ));
            }
            r.push(piece);
            start = i + 4;
            i = i + 4;
        } else {
            assert(split_gaps_from(s@, start as int, i as int) == split_gaps_from(
                s@,
                start as int,
                i + 1,
            ));
            i = i + 1;
        }
    }
    let last = s.substring_char(start, len).to_owned();
    proof {
        assert(split_gaps_from(s@, start as int, i as int) == seq![s@.subrange(
            start as int,
            s@.len() as int,
        )]);
        assert(split_gaps_from(s@, start as int, i as int)[0] == s@.subrange(
            start as int,
            len as int,
        ));
    }
    r.push(last);
    r
}

} // verus!

verus! {

/// Whether `a` and `b` hold the same characters.
pub fn str_eq(a: &str, b: &str) -> (r: bool)
    ensures
        r == (a@ == b@),
{
    let n = a.unicode_len();
    if n != b.unicode_len() {
        return false;
    }
    let mut i: usize = 0;
    while i < n
        invariant
            n == a@.len(),
            n == b@.len(),
            i <= n,
            forall|j: int| 0 <= j < i ==> a@[j] == b@[j],
        decreases n - i,
    {
        if a.get_char(i) != b.get_char(i) {
            return false;
        }
        i = i + 1;
    }
    assert(a@ == b@);
    true
}

} // verus!

verus! {

proof fn lemma_decimal_grows(s: Seq<char>, k: int)
    requires
        0 <= k <= s.len(),
        forall|i: int| 0 <= i < s.len() ==> is_ascii_digit(#[trigger] s[i]),
    ensures
        decimal_value(s.subrange(0, k)) <= decimal_value(s),
    decreases s.len() - k,
{
    if k < s.len() {
        let t = s.subrange(0, k + 1);
        assert(t.drop_last() == s.subrange(0, k));
        assert(is_ascii_digit(s[k]));
        lemma_decimal_grows(s, k + 1);
    } else {
        assert(s.subrange(0, k) == s);
    }
}

/// Reads an unsigned decimal number as `str::parse::<usize>` does.
pub fn parse_usize(s: &str) -> (r: Option<usize>)
    ensures
        r is Some <==> parses_as_usize(s@),
        r matches Some(v) ==> v == decimal_value(digits_of(s@)),
{
    let len = s.unicode_len();
    let mut i: usize = 0;
    if len > 0 && s.get_char(0) == '+' {
        i = 1;
    }
    let ghost d = digits_of(s@);
    let ghost start = i as int;
    assert(d == s@.subrange(start, len as int));
    if i == len {
        return None;
    }
    let mut acc: usize = 0;
    while i < len
        invariant
            len == s@.len(),
            start <= i <= len,
            start == 0 || start == 1,
            d == s@.subrange(start, len as int),
            d == digits_of(s@),
            d.len() > 0,
            forall|j: int| 0 <= j < i - start ==> is_ascii_digit(#[trigger] d[j]),
            acc == decimal_value(d.subrange(0, i - start)),
        decreases len - i,
    {
        let c = s.get_char(i);
        assert(d[i - start] == c);
        if !('0' <= c && c <= '9') {
            assert(!is_ascii_digit(d[i - start]));
            assert(digits_of(s@) == d);
            assert(!parses_as_usize(s@));
            return None;
        }
        let digit = ((c as u32) - ('0' as u32)) as usize;
        proof {
            let t = d.subrange(0, i - start + 1);
            assert(t.drop_last() == d.subrange(0, i - start));
            assert(t.last() == c);
        }
        if acc > (usize::MAX - digit) / 10 {
            proof {
                let t = d.subrange(0, i - start + 1);
                assert(decimal_value(t) == acc * 10 + digit);
                assert(acc * 10 + digit > usize::MAX) by (nonlinear_arith)
                    requires
                        acc > (usize::MAX - digit) / 10,
                        digit <= 9,
                ;
                assert(digits_of(s@) == d);
                if parses_as_usize(s@) {
                    lemma_decimal_grows(d, i - start + 1);
                    assert(decimal_value(d) > usize::MAX);
                    assert(false);
                }
            }
            return None;
        }
        assert(acc * 10 + digit <= usize::MAX) by (nonlinear_arith)
            requires
                acc <= (usize::MAX - digit) / 10,
                digit <= 9,
        ;
        acc = acc * 10 + digit;
        i = i + 1;
    }
    assert(d.subrange(0, i - start) == d);
    Some(acc)
}

} // verus!

verus! {

/// The pieces of `s[start..]` between occurrences of `c`; the piece under way started at
/// `start` and the scan has reached `i`.
pub open spec fn split_char_from(s: Seq<char>, c: char, start: int, i: int) -> Seq<Seq<char>>
    decreases s.len() - i,
{
    if i >= s.len() || i < start || start < 0 {
        seq![s.subrange(start, s.len() as int)]
    } else if s[i] == c {
        seq![s.subrange(start, i)] + split_char_from(s, c, i + 1, i + 1)
    } else {
        split_char_from(s, c, start, i + 1)
    }
}

/// The pieces of `s` between occurrences of `c`, as `str::split` gives them.
pub open spec fn split_char(s: Seq<char>, c: char) -> Seq<Seq<char>> {
    split_char_from(s, c, 0, 0)
}

/// `s` without its leading white space.
pub open spec fn trim_start(s: Seq<char>) -> Seq<char>
    decreases s.len(),
{
    if s.len() > 0 && is_white_space(s[0]) {
        trim_start(s.drop_first())
    } else {
        s
    }
}

/// `s` without leading and trailing white space.
pub open spec fn trim(s: Seq<char>) -> Seq<char> {
    trim_start(trim_end(s))
}

/// `s` without one trailing carriage return.
pub open spec fn strip_cr(s: Seq<char>) -> Seq<char> {
    if s.len() > 0 && s.last() == '\r' {
        s.drop_last()
    } else {
        s
    }
}

/// The lines of `s` as `str::lines` gives them: cut at each newline, a carriage return before
/// it dropped, and no empty line after a final newline.
pub open spec fn text_lines(s: Seq<char>) -> Seq<Seq<char>> {
    let pieces = split_char(s, '\n');
    let body = if pieces.last().len() == 0 {
        pieces.drop_last()
    } else {
        pieces
    };
    Seq::new(
        body.len(),
        |i: int|
            if i < pieces.len() - 1 {
                strip_cr(body[i])
            } else {
                body[i]
            },
    )
}

/// The pieces of `s` between occurrences of `c`.
pub fn split_on_char(s: &str, c: char) -> (r: Vec<String>)
    ensures
        r@.len() == split_char(s@, c).len(),
        forall|k: int| 0 <= k < r@.len() ==> (#[trigger] r@[k])@ == split_char(s@, c)[k],
{
    let len = s.unicode_len();
    let mut r: Vec<String> = Vec::new();
    let mut start: usize = 0;
    let mut i: usize = 0;
    while i < len
        invariant
            len == s@.len(),
            start <= i <= len,
            r@.len() + split_char_from(s@, c, start as int, i as int).len() == split_char(s@, c).len(),
            forall|k: int| 0 <= k < r@.len() ==> (#[trigger] r@[k])@ == split_char(s@, c)[k],
            forall|k: int|
                0 <= k < split_char_from(s@, c, start as int, i as int).len() ==> split_char(s@, c)[r@.len()
                    + k] == #[trigger] split_char_from(s@, c, start as int, i as int)[k],
        decreases len - i,
    {
        if s.get_char(i) == c {
            let piece = s.substring_char(start, i).to_owned();
            proof {
                let rest = split_char_from(s@, c, i + 1, i + 1);
                assert(split_char_from(s@, c, start as int, i as int) == seq![s@.subrange(
                    start as int,
                    i as int,
                )] + rest);
                assert forall|k: int| 0 <= k < rest.len() implies split_char(s@, c)[r@.len() + 1 + k]
                    == #[trigger] rest[k] by {
                    assert(split_char_from(s@, c, start as int, i as int)[k + 1] == rest[k]);
                }
                assert(split_char_from(s@, c, start as int, i as int)[0] == s@.subrange(
                    start as int,
                    i as int,
                ));
            }
            r.push(piece);
            start = i + 1;
            i = i + 1;
        } else {
            assert(split_char_from(s@, c, start as int, i as int) == split_char_from(
                s@,
                c,
                start as int,
                i + 1,
            ));
            i = i + 1;
        }
    }
    let last = s.substring_char(start, len).to_owned();
    proof {
        assert(split_char_from(s@, c, start as int, i as int) == seq![s@.subrange(
            start as int,
            s@.len() as int,
        )]);
        assert(split_char_from(s@, c, start as int, i as int)[0] == s@.subrange(
            start as int,
            len as int,
        ));
    }
    r.push(last);
    r
}

/// `s` without leading and trailing white space.
pub fn trimmed(s: &str) -> (r: String)
    ensures
        r@ == trim(s@),
{
    let n = trimmed_len(s);
    let t = s.substring_char(0, n);
    let mut k: usize = 0;
    assert(t@.subrange(0, 0 as int) == Seq::<char>::empty());
    assert(t@.subrange(0 as int, t@.len() as int) == t@);
    while k < n && is_white_space_char(t.get_char(k))
        invariant
            n == t@.len(),
            k <= n,
            trim_start(t@) == trim_start(t@.subrange(k as int, n as int)),
        decreases n - k,
    {
        assert(t@.subrange(k as int, n as int).drop_first() == t@.subrange(k + 1, n as int));
        k = k + 1;
    }
    t.substring_char(k, n).to_owned()
}

/// The lines of `s`, as `str::lines` gives them.
pub fn lines_of(s: &str) -> (r: Vec<String>)
    ensures
        r@.len() == text_lines(s@).len(),
        forall|k: int| 0 <= k < r@.len() ==> (#[trigger] r@[k])@ == text_lines(s@)[k],
{
    let pieces = split_on_char(s, '\n');
    let ghost pv = split_char(s@, '\n');
    proof {
        lemma_split_char_nonempty(s@, '\n', 0, 0);
    }
    let count = pieces.len();
    let body_len = if pieces[count - 1].as_str().unicode_len() == 0 {
        count - 1
    } else {
        count
    };
    let mut r: Vec<String> = Vec::new();
    let mut i: usize = 0;
    while i < body_len
        invariant
            pv == split_char(s@, '\n'),
            pieces@.len() == pv.len(),
            count == pv.len(),
            count > 0,
            forall|k: int| 0 <= k < pieces@.len() ==> (#[trigger] pieces@[k])@ == pv[k],
            body_len == text_lines(s@).len(),
            body_len <= count,
            i <= body_len,
            r@.len() == i,
            forall|k: int| 0 <= k < i ==> (#[trigger] r@[k])@ == text_lines(s@)[k],
        decreases body_len - i,
    {
        let p = pieces[i].as_str();
        let n = p.unicode_len();
        let line = if i + 1 < count && n > 0 && p.get_char(n - 1) == '\r' {
            p.substring_char(0, n - 1).to_owned()
        } else {
            p.to_owned()
        };
        proof {
            assert(p@ == pv[i as int]);
            if i + 1 < count && n > 0 && p@[n - 1] == '\r' {
                assert(p@.drop_last() == p@.subrange(0, n - 1));
            }
        }
        r.push(line);
        i = i + 1;
    }
    r
}

proof fn lemma_split_char_nonempty(s: Seq<char>, c: char, start: int, i: int)
    requires
        0 <= start <= i <= s.len(),
    ensures
        split_char_from(s, c, start, i).len() > 0,
    decreases s.len() - i,
{
    if i < s.len() {
        if s[i] == c {
            lemma_split_char_nonempty(s, c, i + 1, i + 1);
        } else {
            lemma_split_char_nonempty(s, c, start, i + 1);
        }
    }
}

} // verus!
