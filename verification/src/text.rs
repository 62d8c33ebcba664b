use vstd::prelude::*;

verus! {

/// Position of the first occurrence of byte `c` in `b`.
pub open spec fn find_byte(b: Seq<u8>, c: u8) -> Option<nat>
    decreases b.len(),
{
    if b.len() == 0 {
        None
    } else if b[0] == c {
        Some(0)
    } else {
        match find_byte(b.drop_first(), c) {
            Some(i) => Some(i + 1),
            None => None,
        }
    }
}

proof fn lemma_find_byte_props(b: Seq<u8>, c: u8)
    ensures
        match find_byte(b, c) {
            Some(i) => i < b.len() && b[i as int] == c && forall|j: int|
                0 <= j < i ==> b[j] != c,
            None => forall|j: int| 0 <= j < b.len() ==> b[j] != c,
        },
    decreases b.len(),
{
    if b.len() > 0 && b[0] != c {
        lemma_find_byte_props(b.drop_first(), c);
        if let Some(i) = find_byte(b.drop_first(), c) {
            assert forall|j: int| 0 <= j < i + 1 implies b[j] != c by {
                if j > 0 {
                    assert(b[j] == b.drop_first()[j - 1]);
                }
            }
        } else {
            assert forall|j: int| 0 <= j < b.len() implies b[j] != c by {
                if j > 0 {
                    assert(b[j] == b.drop_first()[j - 1]);
                }
            }
        }
    }
}

/// Finds the first occurrence of byte `c` in `b`.
pub fn find_byte_in(b: &[u8], c: u8) -> (res: Option<usize>)
    ensures
        match res {
            Some(i) => find_byte(b@, c) == Some(i as nat),
            None => find_byte(b@, c) is None,
        },
{
    proof {
        lemma_find_byte_props(b@, c);
    }
    let mut i: usize = 0;
    while i < b.len()
        invariant
            i <= b.len(),
            forall|j: int| 0 <= j < i ==> b@[j] != c,
            match find_byte(b@, c) {
                Some(k) => k < b@.len() && b@[k as int] == c && forall|j: int|
                    0 <= j < k ==> b@[j] != c,
                None => forall|j: int| 0 <= j < b@.len() ==> b@[j] != c,
            },
        decreases b.len() - i,
    {
        if b[i] == c {
            proof {
                if let Some(k) = find_byte(b@, c) {
                    if k < i {
                        assert(b@[k as int] != c);
                    }
                    if k > i {
                        assert(b@[i as int] != c);
                    }
                }
            }
            return Some(i);
        }
        i += 1;
    }
    None
}

pub open spec fn is_ascii_digit(c: u8) -> bool {
    48 <= c <= 57
}

pub open spec fn all_ascii_digits(s: Seq<u8>) -> bool {
    forall|i: int| 0 <= i < s.len() ==> #[trigger] is_ascii_digit(s[i])
}

/// The value of a string of decimal digits.
pub open spec fn decimal_value(s: Seq<u8>) -> nat
    decreases s.len(),
{
    if s.len() == 0 {
        0
    } else {
        decimal_value(s.drop_last()) * 10 + (s.last() - 48) as nat
    }
}

/// The digits of an unsigned decimal literal, after its optional leading `+`.
pub open spec fn unsigned_digits(s: Seq<u8>) -> Seq<u8> {
    if s.len() > 0 && s[0] == 43 {
        s.drop_first()
    } else {
        s
    }
}

/// What parsing `s` as a `u8` in base ten gives: an optional `+`, then at least one
/// ASCII digit and nothing else, with a value that fits in a `u8`.
pub open spec fn parse_u8_decimal(s: Seq<u8>) -> Option<u8> {
    let d = unsigned_digits(s);
    if d.len() > 0 && all_ascii_digits(d) && decimal_value(d) <= 255 {
        Some(decimal_value(d) as u8)
    } else {
        None
    }
}

proof fn lemma_decimal_prefix_le(d: Seq<u8>, k: int)
    requires
        all_ascii_digits(d),
        0 <= k <= d.len(),
    ensures
        decimal_value(d.take(k)) <= decimal_value(d),
    decreases d.len(),
{
    if k < d.len() {
        let p = d.drop_last();
        assert(all_ascii_digits(p)) by {
            assert forall|i: int| 0 <= i < p.len() implies #[trigger] is_ascii_digit(p[i]) by {
                assert(p[i] == d[i]);
                assert(is_ascii_digit(d[i]));
            }
        }
        lemma_decimal_prefix_le(p, k);
        assert(p.take(k) =~= d.take(k));
    } else {
        assert(d.take(k) =~= d);
    }
}

/// Parses a `u8` written in base ten, as `str::parse::<u8>` does.
pub fn parse_u8_decimal_bytes(b: &[u8]) -> (res: Option<u8>)
    ensures
        res == parse_u8_decimal(b@),
{
    let mut start: usize = 0;
    if b.len() > 0 && b[0] == 43 {
        start = 1;
    }
    let ghost d = unsigned_digits(b@);
    assert(d =~= b@.subrange(start as int, b@.len() as int));
    if start >= b.len() {
        return None;
    }
    let mut i: usize = start;
    let mut acc: u32 = 0;
    while i < b.len()
        invariant
            start <= i <= b.len(),
            d == unsigned_digits(b@),
            d =~= b@.subrange(start as int, b@.len() as int),
            all_ascii_digits(d.take(i - start)),
            acc as nat == decimal_value(d.take(i - start)),
            acc <= 255,
        decreases b.len() - i,
    {
        let c = b[i];
        if c < 48 || c > 57 {
            assert(!is_ascii_digit(d[i - start]));
            return None;
        }
        assert(d.take(i + 1 - start).drop_last() =~= d.take(i - start));
        acc = acc * 10 + (c - 48) as u32;
        i += 1;
        assert(all_ascii_digits(d.take(i - start))) by {
            assert forall|j: int| 0 <= j < i - start implies #[trigger] is_ascii_digit(
                d.take(i - start)[j],
            ) by {
                if j < i - 1 - start {
                    assert(d.take(i - start)[j] == d.take(i - 1 - start)[j]);
                }
            }
        }
        if acc > 255 {
            proof {
                if all_ascii_digits(d) {
                    lemma_decimal_prefix_le(d, i - start);
                }
            }
            return None;
        }
    }
    assert(d.take(i - start) =~= d);
    Some(acc as u8)
}

/// What `String::from_utf8_lossy` makes of a byte string.
pub uninterp spec fn utf8_lossy(b: Seq<u8>) -> Seq<char>;

/// `String::from_utf8_lossy(b).into_owned()`: the text of `b`, where valid UTF-8 is
/// decoded as it stands and invalid sequences are replaced; what the replacement gives
/// is named by `utf8_lossy` and not stated further.
#[verifier::external_body]
pub(crate) fn bytes_to_string_lossy(b: &[u8]) -> (s: String)
    ensures
        s@ == utf8_lossy(b@),
        vstd::utf8::valid_utf8(b@) ==> s@ == vstd::utf8::decode_utf8(b@),
{
    String::from_utf8_lossy(b).into_owned()
}

/// Whether `needle` occurs in `hay` as a contiguous run.
pub open spec fn contains_seq(hay: Seq<char>, needle: Seq<char>) -> bool {
    exists|i: int| 0 <= i <= hay.len() - needle.len() && #[trigger] hay.subrange(i, i + needle.len()) == needle
}

/// The characters of a string.
pub fn str_chars(s: &str) -> (res: Vec<char>)
    ensures
        res@ == s@,
{
    let n = s.unicode_len();
    let mut res: Vec<char> = Vec::new();
    let mut i: usize = 0;
    while i < n
        invariant
            n == s@.len(),
            i <= n,
            res@ == s@.take(i as int),
        decreases n - i,
    {
        res.push(s.get_char(i));
        i += 1;
        assert(res@ =~= s@.take(i as int));
    }
    assert(s@.take(n as int) =~= s@);
    res
}

/// Whether `needle` occurs in `hay`, as `str::contains` decides for a string pattern.
pub fn str_contains(hay: &str, needle: &str) -> (res: bool)
    ensures
        res == contains_seq(hay@, needle@),
{
    let h = str_chars(hay);
    let n = str_chars(needle);
    if n.len() == 0 {
        assert(hay@.subrange(0, 0int + needle@.len()) =~= needle@);
        return true;
    }
    if n.len() > h.len() {
        return false;
    }
    let mut i: usize = 0;
    while i <= h.len() - n.len()
        invariant
            h@ == hay@,
            n@ == needle@,
            0 < n.len() <= h.len(),
            i <= h.len() - n.len() + 1,
            forall|k: int| 0 <= k < i ==> #[trigger] h@.subrange(k, k + n@.len()) != n@,
        decreases h.len() - n.len() + 1 - i,
    {
        let mut j: usize = 0;
        let mut same = true;
        assert(h@.subrange(i as int, i as int) =~= n@.take(0));
        while j < n.len()
            invariant
                h@ == hay@,
                n@ == needle@,
                n.len() <= h.len(),
                i <= h.len() - n.len(),
                j <= n.len(),
                same == (h@.subrange(i as int, i + j) == n@.take(j as int)),
            decreases n.len() - j,
        {
            if h[i + j] != n[j] {
                same = false;
                assert(h@.subrange(i as int, i + j + 1)[j as int] != n@.take(j + 1)[j as int]);
            } else if same {
                assert(h@.subrange(i as int, i + j + 1) =~= n@.take(j + 1));
            }
            proof {
                if !same {
                    if h@.subrange(i as int, i + j + 1) == n@.take(j + 1) {
                        assert(h@.subrange(i as int, i + j) =~= h@.subrange(
                            i as int,
                            i + j + 1,
                        ).take(j as int));
                        assert(n@.take(j as int) =~= n@.take(j + 1).take(j as int));
                    }
                }
            }
            j += 1;
        }
        assert(n@.take(n.len() as int) =~= n@);
        if same {
            return true;
        }
        i += 1;
    }
    false
}

/// Whether a string spells exactly the given text.
pub fn str_equals(s: &str, t: &str) -> (res: bool)
    ensures
        res == (s@ == t@),
{
    let a = str_chars(s);
    let b = str_chars(t);
    if a.len() != b.len() {
        return false;
    }
    let mut i: usize = 0;
    while i < a.len()
        invariant
            a@ == s@,
            b@ == t@,
            a.len() == b.len(),
            i <= a.len(),
            forall|k: int| 0 <= k < i ==> a@[k] == b@[k],
        decreases a.len() - i,
    {
        if a[i] != b[i] {
            return false;
        }
        i += 1;
    }
    assert(a@ =~= b@);
    true
}

} // verus!
