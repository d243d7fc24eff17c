//! Character-level text operations the codec is built from: searching,
//! trimming and splitting, each specified over `Seq<char>`.
use vstd::prelude::*;
use vstd::string::*;

verus! {

/// The Unicode `White_Space` property, which `char::is_whitespace`,
/// `str::trim` and `str::split_whitespace` go by.
pub open spec fn is_white_space(c: char) -> bool {
    ||| ('\u{9}' <= c && c <= '\u{d}')
    ||| c == ' '
    ||| c == '\u{85}'
    ||| c == '\u{a0}'
    ||| c == '\u{1680}'
    ||| ('\u{2000}' <= c && c <= '\u{200a}')
    ||| c == '\u{2028}'
    ||| c == '\u{2029}'
    ||| c == '\u{202f}'
    ||| c == '\u{205f}'
    ||| c == '\u{3000}'
}

/// `char::is_whitespace`: whether `c` has the Unicode `White_Space` property.
#[verifier::external_body]
pub(crate) fn char_is_whitespace(c: char) -> (r: bool)
    ensures
        r == is_white_space(c),
{
    c.is_whitespace()
}

/// The characters of a string, in order.
pub fn chars_of(s: &str) -> (v: Vec<char>)
    ensures
        v@ == s@,
{
    broadcast use vstd::string::group_string_axioms;
    let mut v: Vec<char> = Vec::new();
    for c in it: s.chars()
        invariant
            v@ == it.seq().take(it.index() as int),
    {
        v.push(c);
        assert(v@ =~= it.seq().take(it.index() + 1));
    }
    assert(v@ =~= s@);
    v
}

/// The texts that index ranges select from `s`.
pub open spec fn range_texts(s: Seq<char>, ranges: Seq<(usize, usize)>) -> Seq<Seq<char>> {
    ranges.map_values(|r: (usize, usize)| s.subrange(r.0 as int, r.1 as int))
}

/// Index of the first `c` in `s` (`str::find` with a `char` pattern, counted
/// in characters).
pub open spec fn find_char(s: Seq<char>, c: char) -> Option<int>
    decreases s.len(),
{
    if s.len() == 0 {
        None
    } else if s[0] == c {
        Some(0)
    } else {
        match find_char(s.drop_first(), c) {
            Some(k) => Some(k + 1),
            None => None,
        }
    }
}

/// `find_char` is the first occurrence, or `None` when there is none.
pub proof fn lemma_find_char(s: Seq<char>, c: char)
    ensures
        match find_char(s, c) {
            Some(k) => 0 <= k < s.len() && s[k] == c && forall|j: int| 0 <= j < k ==> s[j] != c,
            None => forall|j: int| 0 <= j < s.len() ==> s[j] != c,
        },
    decreases s.len(),
{
    if s.len() > 0 && s[0] != c {
        lemma_find_char(s.drop_first(), c);
        assert forall|j: int| 1 <= j < s.len() implies s[j] == s.drop_first()[j - 1] by {}
    }
}

/// Where the first `c` stands in `v[from..to]`, counted from `from`.
pub fn find_in(v: &Vec<char>, from: usize, to: usize, c: char) -> (r: Option<usize>)
    requires
        from <= to <= v@.len(),
    ensures
        match r {
            Some(k) => find_char(v@.subrange(from as int, to as int), c) == Some(k as int),
            None => find_char(v@.subrange(from as int, to as int), c) is None,
        },
{
    let ghost s = v@.subrange(from as int, to as int);
    let mut i = from;
    while i < to
        invariant
            from <= i <= to <= v@.len(),
            s == v@.subrange(from as int, to as int),
            forall|j: int| from <= j < i ==> v@[j] != c,
        decreases to - i,
    {
        if v[i] == c {
            proof {
                lemma_find_char(s, c);
            }
            assert(s[i - from] == c);
            assert forall|j: int| 0 <= j < i - from implies s[j] != c by {
                assert(s[j] == v@[j + from]);
            }
            return Some(i - from);
        }
        i += 1;
    }
    assert forall|j: int| 0 <= j < s.len() implies s[j] != c by {
        assert(s[j] == v@[j + from]);
    }
    proof {
        lemma_find_char(s, c);
    }
    None
}

/// `s` without its leading white space.
pub open spec fn trim_start(s: Seq<char>) -> Seq<char>
    decreases s.len(),
{
    if s.len() > 0 && is_white_space(s[0]) {
        trim_start(s.drop_first())
    } else {
        s
    }
}

/// `s` without its trailing white space.
pub open spec fn trim_end(s: Seq<char>) -> Seq<char>
    decreases s.len(),
{
    if s.len() > 0 && is_white_space(s.last()) {
        trim_end(s.drop_last())
    } else {
        s
    }
}

/// `str::trim`: `s` without leading and trailing white space.
pub open spec fn trim(s: Seq<char>) -> Seq<char> {
    trim_end(trim_start(s))
}

/// The range of `v[from..to]` that `str::trim` keeps.
pub fn trim_range(v: &Vec<char>, from: usize, to: usize) -> (r: (usize, usize))
    requires
        from <= to <= v@.len(),
    ensures
        from <= r.0 <= r.1 <= to,
        v@.subrange(r.0 as int, r.1 as int) == trim(v@.subrange(from as int, to as int)),
{
    let mut i = from;
    while i < to && char_is_whitespace(v[i])
        invariant
            from <= i <= to <= v@.len(),
            trim_start(v@.subrange(from as int, to as int)) == trim_start(
                v@.subrange(i as int, to as int),
            ),
        decreases to - i,
    {
        assert(v@.subrange(i as int, to as int).drop_first() =~= v@.subrange(i + 1, to as int));
        i += 1;
    }
    let mut j = to;
    while j > i && char_is_whitespace(v[j - 1])
        invariant
            from <= i <= j <= to <= v@.len(),
            trim_start(v@.subrange(from as int, to as int)) == v@.subrange(i as int, to as int),
            trim_end(v@.subrange(i as int, to as int)) == trim_end(v@.subrange(i as int, j as int)),
        decreases j - i,
    {
        assert(v@.subrange(i as int, j as int).drop_last() =~= v@.subrange(i as int, j - 1));
        j -= 1;
    }
    (i, j)
}

/// `str::split_whitespace`: the maximal runs of characters that are not
/// white space, in order.
pub open spec fn words(s: Seq<char>) -> Seq<Seq<char>>
    decreases s.len(),
{
    if s.len() == 0 {
        seq![]
    } else {
        let w = words(s.drop_last());
        let c = s.last();
        if is_white_space(c) {
            w
        } else if s.len() >= 2 && !is_white_space(s[s.len() - 2]) {
            w.update(w.len() - 1, w.last().push(c))
        } else {
            w.push(seq![c])
        }
    }
}

/// The ranges of the words of `v[from..to]`, as `str::split_whitespace` gives them.
pub fn word_ranges(v: &Vec<char>, from: usize, to: usize) -> (r: Vec<(usize, usize)>)
    requires
        from <= to <= v@.len(),
    ensures
        range_texts(v@, r@) == words(v@.subrange(from as int, to as int)),
        forall|k: int| 0 <= k < r@.len() ==> from <= #[trigger] r@[k].0 <= r@[k].1 <= to,
{
    let mut r: Vec<(usize, usize)> = Vec::new();
    let mut i = from;
    while i < to
        invariant
            from <= i <= to <= v@.len(),
            range_texts(v@, r@) == words(v@.subrange(from as int, i as int)),
            forall|k: int| 0 <= k < r@.len() ==> from <= #[trigger] r@[k].0 <= r@[k].1 <= i,
            (i > from && !is_white_space(v@[i - 1])) ==> r@.len() > 0 && r@.last().1 == i,
        decreases to - i,
    {
        let ghost s = v@.subrange(from as int, i + 1);
        let ghost r0 = r@;
        assert(s.drop_last() =~= v@.subrange(from as int, i as int));
        let c = v[i];
        if char_is_whitespace(c) {
            assert forall|k: int| 0 <= k < r@.len() implies from <= #[trigger] r@[k].0 <= r@[k].1
                <= i + 1 by {
                assert(r@[k] == r0[k]);
            }
        } else if i > from && !char_is_whitespace(v[i - 1]) {
            let last = r.pop().unwrap();
            r.push((last.0, i + 1));
            assert(s[s.len() - 2] == v@[i - 1]);
            assert(v@.subrange(last.0 as int, i + 1) =~= v@.subrange(last.0 as int, i as int).push(c));
            assert(range_texts(v@, r@) =~= words(s));
            assert forall|k: int| 0 <= k < r@.len() implies from <= #[trigger] r@[k].0 <= r@[k].1
                <= i + 1 by {
                if k < r@.len() - 1 {
                    assert(r@[k] == r0[k]);
                }
            }
        } else {
            r.push((i, i + 1));
            assert(v@.subrange(i as int, i + 1) =~= seq![c]);
            assert(range_texts(v@, r@) =~= words(s));
            assert forall|k: int| 0 <= k < r@.len() implies from <= #[trigger] r@[k].0 <= r@[k].1
                <= i + 1 by {
                if k < r@.len() - 1 {
                    assert(r@[k] == r0[k]);
                }
            }
        }
        i += 1;
    }
    r
}

/// `str::split` with a `char` pattern: the pieces between the occurrences
/// of `c`, in order (always at least one).
pub open spec fn split_on(s: Seq<char>, c: char) -> Seq<Seq<char>>
    decreases s.len(),
{
    if s.len() == 0 {
        seq![seq![]]
    } else {
        let w = split_on(s.drop_last(), c);
        if s.last() == c {
            w.push(seq![])
        } else {
            w.update(w.len() - 1, w.last().push(s.last()))
        }
    }
}

/// The ranges of the pieces of `v[from..to]` between occurrences of `c`.
pub fn split_ranges(v: &Vec<char>, from: usize, to: usize, c: char) -> (r: Vec<(usize, usize)>)
    requires
        from <= to <= v@.len(),
    ensures
        range_texts(v@, r@) == split_on(v@.subrange(from as int, to as int), c),
        r@.len() >= 1,
        forall|k: int| 0 <= k < r@.len() ==> from <= #[trigger] r@[k].0 <= r@[k].1 <= to,
{
    let mut r: Vec<(usize, usize)> = Vec::new();
    r.push((from, from));
    let mut i = from;
    assert(v@.subrange(from as int, from as int) =~= Seq::<char>::empty());
    assert(range_texts(v@, r@) =~= split_on(v@.subrange(from as int, i as int), c));
    while i < to
        invariant
            from <= i <= to <= v@.len(),
            range_texts(v@, r@) == split_on(v@.subrange(from as int, i as int), c),
            r@.len() >= 1,
            r@.last().1 == i,
            forall|k: int| 0 <= k < r@.len() ==> from <= #[trigger] r@[k].0 <= r@[k].1 <= i,
        decreases to - i,
    {
        let ghost s = v@.subrange(from as int, i + 1);
        let ghost r0 = r@;
        assert(s.drop_last() =~= v@.subrange(from as int, i as int));
        if v[i] == c {
            r.push((i + 1, i + 1));
            assert(v@.subrange(i + 1, i + 1) =~= Seq::<char>::empty());
            assert(range_texts(v@, r@) =~= split_on(s, c));
        } else {
            let last = r.pop().unwrap();
            r.push((last.0, i + 1));
            assert(v@.subrange(last.0 as int, i + 1) =~= v@.subrange(last.0 as int, i as int).push(
                v@[i as int],
            ));
            assert(range_texts(v@, r@) =~= split_on(s, c));
            assert forall|k: int| 0 <= k < r@.len() implies from <= #[trigger] r@[k].0 <= r@[k].1
                <= i + 1 by {
                if k < r@.len() - 1 {
                    assert(r@[k] == r0[k]);
                }
            }
        }
        i += 1;
    }
    r
}

/// The value of a hexadecimal digit (`0-9`, `a-f`, `A-F`).
pub open spec fn hex_digit_value(c: char) -> Option<nat> {
    if '0' <= c && c <= '9' {
        Some((c as int - '0' as int) as nat)
    } else if 'a' <= c && c <= 'f' {
        Some((c as int - 'a' as int + 10) as nat)
    } else if 'A' <= c && c <= 'F' {
        Some((c as int - 'A' as int + 10) as nat)
    } else {
        None
    }
}

/// The value of a run of hexadecimal digits, most significant first.
pub open spec fn hex_digits_value(d: Seq<char>) -> Option<nat>
    decreases d.len(),
{
    if d.len() == 0 {
        Some(0)
    } else {
        match (hex_digits_value(d.drop_last()), hex_digit_value(d.last())) {
            (Some(high), Some(low)) => Some(high * 16 + low),
            _ => None,
        }
    }
}

/// `u8::from_str_radix(s, 16)`: an optional `+` followed by at least one
/// hexadecimal digit, whose value fits in a byte.
pub open spec fn hex_byte(s: Seq<char>) -> Option<u8> {
    let d = if s.len() > 0 && s[0] == '+' {
        s.drop_first()
    } else {
        s
    };
    if d.len() == 0 {
        None
    } else {
        match hex_digits_value(d) {
            Some(v) => if v < 256 {
                Some(v as u8)
            } else {
                None
            },
            None => None,
        }
    }
}

/// `u8::from_str_radix(s, 16)` on the text of `digits`, `None` where it
/// reports an error. Its documentation: the text is an optional `+` sign
/// followed by digits of the radix only, and the value must fit in the type.
#[verifier::external_body]
pub(crate) fn parse_hex_byte(digits: &[char]) -> (r: Option<u8>)
    ensures
        r == hex_byte(digits@),
{
    let text: String = digits.iter().collect();
    u8::from_str_radix(&text, 16).ok()
}

/// The character of the standard Base64 alphabet for a 6-bit value.
pub open spec fn base64_symbol(n: int) -> char {
    if n < 26 {
        ('A' as int + n) as char
    } else if n < 52 {
        ('a' as int + (n - 26)) as char
    } else if n < 62 {
        ('0' as int + (n - 52)) as char
    } else if n == 62 {
        '+'
    } else {
        '/'
    }
}

/// Standard Base64 (RFC 4648 alphabet, padded with `=`): every three bytes
/// become four characters, a final group of one or two bytes is padded.
pub open spec fn base64_standard(b: Seq<u8>) -> Seq<char>
    decreases b.len(),
{
    if b.len() == 0 {
        seq![]
    } else if b.len() == 1 {
        let x0 = b[0] as int;
        seq![base64_symbol(x0 / 4), base64_symbol((x0 % 4) * 16), '=', '=']
    } else if b.len() == 2 {
        let x0 = b[0] as int;
        let x1 = b[1] as int;
        seq![
            base64_symbol(x0 / 4),
            base64_symbol((x0 % 4) * 16 + x1 / 16),
            base64_symbol((x1 % 16) * 4),
            '=',
        ]
    } else {
        let x0 = b[0] as int;
        let x1 = b[1] as int;
        let x2 = b[2] as int;
        seq![
            base64_symbol(x0 / 4),
            base64_symbol((x0 % 4) * 16 + x1 / 16),
            base64_symbol((x1 % 16) * 4 + x2 / 64),
            base64_symbol(x2 % 64),
        ] + base64_standard(b.skip(3))
    }
}

/// `base64::encode`: standard alphabet with padding (`base64::STANDARD`).
#[verifier::external_body]
pub(crate) fn base64_encode(bytes: &Vec<u8>) -> (s: String)
    ensures
        s@ == base64_standard(bytes@),
{
    base64::encode(bytes)
}

} // verus!
