use vstd::prelude::*;

use super::{insert_found, lemma_insert_found_keys, lemma_insert_found_push, pair_has_key};
use crate::maps::StringMap;
use crate::text::{chars_of, digit_value, is_digit, string_from_chars, utf8_len};

verus! {

broadcast use vstd::string::group_string_axioms;

/// `s` without its dashes.
pub open spec fn without_dashes(s: Seq<char>) -> Seq<char> {
    s.filter(|c: char| c != '-')
}

/// The value of a character as a decimal digit, 0 for any other character.
pub open spec fn digit_or_zero(c: char) -> nat {
    if is_digit(c) {
        digit_value(c)
    } else {
        0
    }
}

/// The ISBN-10 weighted sum: the character at position `i` (from 0) counts
/// `i + 1` times its digit value.
pub open spec fn weighted_sum(s: Seq<char>) -> nat
    decreases s.len(),
{
    if s.len() == 0 {
        0
    } else {
        weighted_sum(s.drop_last()) + digit_or_zero(s.last()) * s.len()
    }
}

/// The ISBN-10 check character for a remainder modulo 11.
pub open spec fn check_char(n: nat) -> char {
    if n == 10 {
        'X'
    } else {
        ('0' as int + n) as char
    }
}

/// The key under which Amazon files a cover: the ID without dashes, turned
/// from ISBN-13 into ISBN-10 when its UTF-8 form is 13 bytes long.
pub open spec fn amazon_key(id: Seq<char>) -> Seq<char> {
    let s = without_dashes(id);
    if vstd::utf8::encode_utf8(s).len() != 13 {
        s
    } else {
        let core = s.subrange(if s.len() < 3 { s.len() as int } else { 3 }, if s.len() < 12 {
            s.len() as int
        } else {
            12
        });
        core.push(check_char(weighted_sum(core) % 11))
    }
}

/// Whether a status of the image probe means that the image exists.
pub open spec fn image_found_spec(status: u16) -> bool {
    status == 200 || status == 403
}

/// The direct image URL that Amazon serves for a key.
pub open spec fn aws_image_url_spec(key: Seq<char>) -> Seq<char> {
    "https://images-na.ssl-images-amazon.com/images/P/"@ + key + ".01.MZZZZZZZZZ.jpg"@
}

proof fn lemma_weighted_sum_push(s: Seq<char>, c: char)
    ensures
        weighted_sum(s.push(c)) == weighted_sum(s) + digit_or_zero(c) * (s.len() + 1),
{
    assert(s.push(c).drop_last() =~= s);
}

fn check_digit_char(n: u32) -> (c: char)
    requires
        n <= 10,
    ensures
        c == check_char(n as nat),
{
    match n {
        0 => '0',
        1 => '1',
        2 => '2',
        3 => '3',
        4 => '4',
        5 => '5',
        6 => '6',
        7 => '7',
        8 => '8',
        9 => '9',
        _ => 'X',
    }
}

/// ISBN-13 to ISBN-10 conversion (Amazon's image path is keyed by ISBN-10/ASIN).
pub fn to_amazon_key(id: &str) -> (res: String)
    ensures
        res@ == amazon_key(id@),
{
    let v = chars_of(id);
    let ghost keep = |c: char| c != '-';
    let mut stripped: Vec<char> = Vec::new();
    let mut i: usize = 0;
    while i < v.len()
        invariant
            i <= v@.len(),
            v@ == id@,
            keep == (|c: char| c != '-'),
            stripped@ == v@.take(i as int).filter(keep),
        decreases v.len() - i,
    {
        proof {
            assert(v@.take(i + 1).drop_last() =~= v@.take(i as int));
            reveal_with_fuel(Seq::filter, 1);
        }
        if v[i] != '-' {
            stripped.push(v[i]);
        }
        i = i + 1;
    }
    assert(v@.take(i as int) =~= v@);
    let s = string_from_chars(stripped.as_slice());
    if utf8_len(&stripped) != 13 {
        return s;
    }
    let n = stripped.len();
    let lo: usize = if n < 3 { n } else { 3 };
    let hi: usize = if n < 12 { n } else { 12 };
    let mut core: Vec<char> = Vec::new();
    let mut sum: u32 = 0;
    let mut k = lo;
    while k < hi
        invariant
            lo <= k <= hi <= n == stripped@.len(),
            core@ == stripped@.subrange(lo as int, k as int),
            core@.len() <= 9,
            hi - lo <= 9,
            sum == weighted_sum(core@),
            sum <= 81 * core@.len(),
        decreases hi - k,
    {
        let c = stripped[k];
        let d: u32 = if '0' <= c && c <= '9' {
            (c as u32) - ('0' as u32)
        } else {
            0
        };
        let w: u32 = (core.len() as u32) + 1;
        proof {
            lemma_weighted_sum_push(core@, c);
            assert(d * w <= 81) by (nonlinear_arith)
                requires
                    d <= 9,
                    w <= 9,
            ;
        }
        sum = sum + d * w;
        core.push(c);
        k = k + 1;
        assert(core@ =~= stripped@.subrange(lo as int, k as int));
    }
    let check = check_digit_char(sum % 11);
    let ghost core_before = core@;
    core.push(check);
    proof {
        let t = without_dashes(id@);
        assert(t == stripped@);
        assert(core_before == t.subrange(lo as int, hi as int));
        assert(core@ == core_before.push(check_char(weighted_sum(core_before) % 11)));
    }
    string_from_chars(core.as_slice())
}

/// The direct image URL that Amazon serves for a key.
pub fn aws_image_url(key: &str) -> (res: String)
    ensures
        res@ == aws_image_url_spec(key@),
{
    let mut url = "https://images-na.ssl-images-amazon.com/images/P/".to_owned();
    url.append(key);
    url.append(".01.MZZZZZZZZZ.jpg");
    url
}

/// A 200 or a 403 both mean the image exists (403 happens for some valid
/// ASINs behind hotlink protection).
pub fn image_found(status: u16) -> (res: bool)
    ensures
        res == image_found_spec(status),
{
    status == 200 || status == 403
}

/// Whether the probe for the ID at `index` of `count` should be followed by
/// a pause: between two probes, not after the last one.
pub fn pause_after(index: usize, count: usize) -> (res: bool)
    ensures
        res == (index + 1 < count),
{
    index < count && count - index > 1
}

/// The value of an ISBN-10 check character.
pub open spec fn check_value(c: char) -> nat {
    if c == 'X' {
        10
    } else {
        digit_value(c)
    }
}

/// A valid ISBN-10: nine digits and a check character (a digit or `X`),
/// the sum of each value times its position (from 1) being a multiple of 11.
pub open spec fn is_isbn10(s: Seq<char>) -> bool {
    &&& s.len() == 10
    &&& forall|i: int| 0 <= i < 9 ==> is_digit(#[trigger] s[i])
    &&& is_digit(s[9]) || s[9] == 'X'
    &&& (weighted_sum(s.take(9)) + 10 * check_value(s[9])) % 11 == 0
}

/// An Amazon key holds no dash.
pub proof fn lemma_amazon_key_has_no_dash(id: Seq<char>)
    ensures
        forall|i: int| 0 <= i < amazon_key(id).len() ==> #[trigger] amazon_key(id)[i] != '-',
{
    let s = without_dashes(id);
    assert forall|i: int| 0 <= i < s.len() implies #[trigger] s[i] != '-' by {
        id.lemma_filter_pred(|c: char| c != '-', i);
    }
    if vstd::utf8::encode_utf8(s).len() == 13 {
        let k = amazon_key(id);
        assert forall|i: int| 0 <= i < k.len() implies #[trigger] k[i] != '-' by {
            if i < k.len() - 1 {
                let lo = if s.len() < 3 { s.len() as int } else { 3 };
                assert(k[i] == s[lo + i]);
            }
        }
    }
}

/// Converting a 13-digit ISBN, dashes allowed, gives a valid ISBN-10.
pub proof fn lemma_isbn13_gives_isbn10(id: Seq<char>)
    requires
        without_dashes(id).len() == 13,
        forall|i: int| 0 <= i < 13 ==> is_digit(#[trigger] without_dashes(id)[i]),
    ensures
        is_isbn10(amazon_key(id)),
{
    let s = without_dashes(id);
    assert(vstd::utf8::is_ascii_chars(s)) by {
        assert forall|i: int| 0 <= i < s.len() implies '\0' <= #[trigger] s[i] <= '\u{7f}' by {
            assert(is_digit(s[i]));
        }
    }
    vstd::utf8::is_ascii_chars_encode_utf8(s);
    let core = s.subrange(3, 12);
    let n = weighted_sum(core) % 11;
    let k = amazon_key(id);
    assert(k == core.push(check_char(n)));
    assert(k.take(9) =~= core);
    assert forall|i: int| 0 <= i < 9 implies is_digit(#[trigger] k[i]) by {
        assert(k[i] == s[3 + i]);
    }
    let w = weighted_sum(core);
    assert(check_value(k[9]) == n);
    assert((w + 10 * (w % 11)) % 11 == 0) by (nonlinear_arith);
}

/// The cover that the probe of one ID gave: its image URL when the probe
/// answered with a status that means the image exists.
pub open spec fn aws_entry(id: Seq<char>, status: Option<u16>) -> Option<(Seq<char>, Seq<char>)> {
    match status {
        Some(st) => if image_found_spec(st) {
            Some((id, aws_image_url_spec(amazon_key(id))))
        } else {
            None
        },
        None => None,
    }
}

/// The covers that the probes found: `statuses[i]` is the status of the
/// probe of `ids[i]`, nothing when the request failed.
pub open spec fn aws_covers_spec(ids: Seq<Seq<char>>, statuses: Seq<Option<u16>>) -> Map<
    Seq<char>,
    Seq<char>,
> {
    let n = if ids.len() <= statuses.len() {
        ids.len()
    } else {
        statuses.len()
    };
    insert_found(Seq::new(n, |i: int| aws_entry(ids[i], statuses[i])))
}

/// The covers that the probes of Amazon's image URLs found, keyed by ID.
pub fn aws_covers(ids: &Vec<String>, statuses: &Vec<Option<u16>>) -> (res: StringMap)
    ensures
        res@ == aws_covers_spec(ids@.map_values(|s: String| s@), statuses@),
{
    let ghost idv = ids@.map_values(|s: String| s@);
    let n: usize = if ids.len() <= statuses.len() {
        ids.len()
    } else {
        statuses.len()
    };
    let ghost items = Seq::new(n as nat, |i: int| aws_entry(idv[i], statuses@[i]));
    let mut found = StringMap::new();
    let mut i: usize = 0;
    assert(items.take(0) =~= Seq::<Option<(Seq<char>, Seq<char>)>>::empty());
    while i < n
        invariant
            i <= n,
            n <= ids@.len(),
            n <= statuses@.len(),
            idv == ids@.map_values(|s: String| s@),
            items == Seq::new(n as nat, |i: int| aws_entry(idv[i], statuses@[i])),
            found@ == insert_found(items.take(i as int)),
        decreases n - i,
    {
        proof {
            assert(items.take(i + 1) =~= items.take(i as int).push(items[i as int]));
            lemma_insert_found_push(items.take(i as int), items[i as int]);
            assert(idv[i as int] == ids@[i as int]@);
        }
        if let Some(st) = statuses[i] {
            if image_found(st) {
                let url = aws_image_url(to_amazon_key(ids[i].as_str()).as_str());
                found.insert(ids[i].clone(), url);
            }
        }
        i = i + 1;
    }
    assert(items.take(n as int) =~= items);
    found
}

proof fn lemma_filter_keeps_all(s: Seq<char>)
    requires
        forall|i: int| 0 <= i < s.len() ==> #[trigger] s[i] != '-',
    ensures
        without_dashes(s) == s,
    decreases s.len(),
{
    reveal_with_fuel(Seq::filter, 1);
    if s.len() > 0 {
        let t = s.drop_last();
        assert forall|i: int| 0 <= i < t.len() implies #[trigger] t[i] != '-' by {
            assert(t[i] == s[i]);
        }
        lemma_filter_keeps_all(t);
        assert(s.last() != '-');
        assert(t.push(s.last()) =~= s);
    }
}

proof fn lemma_without_dashes_has_none(s: Seq<char>)
    ensures
        forall|i: int| 0 <= i < without_dashes(s).len() ==> #[trigger] without_dashes(s)[i] != '-',
{
    assert forall|i: int| 0 <= i < without_dashes(s).len() implies #[trigger] without_dashes(s)[i]
        != '-' by {
        s.lemma_filter_pred(|c: char| c != '-', i);
    }
}

proof fn lemma_encode_utf8_concat(a: Seq<char>, b: Seq<char>)
    ensures
        vstd::utf8::encode_utf8(a + b).len() == vstd::utf8::encode_utf8(a).len()
            + vstd::utf8::encode_utf8(b).len(),
    decreases a.len(),
{
    if a.len() > 0 {
        assert((a + b).drop_first() =~= a.drop_first() + b);
        assert((a + b)[0] == a[0]);
        lemma_encode_utf8_concat(a.drop_first(), b);
    } else {
        assert(a + b =~= b);
    }
}

proof fn lemma_encode_utf8_at_least_len(a: Seq<char>)
    ensures
        vstd::utf8::encode_utf8(a).len() >= a.len(),
    decreases a.len(),
{
    if a.len() > 0 {
        lemma_encode_utf8_at_least_len(a.drop_first());
    }
}

/// The key depends on the ID without its dashes alone.
pub proof fn lemma_amazon_key_ignores_dashes(id: Seq<char>)
    ensures
        amazon_key(id) == amazon_key(without_dashes(id)),
{
    lemma_without_dashes_has_none(id);
    lemma_filter_keeps_all(without_dashes(id));
}

/// A key is never converted again: converting it gives it back.
pub proof fn lemma_amazon_key_idempotent(id: Seq<char>)
    ensures
        amazon_key(amazon_key(id)) == amazon_key(id),
{
    let s = without_dashes(id);
    let k = amazon_key(id);
    lemma_amazon_key_has_no_dash(id);
    lemma_filter_keeps_all(k);
    if vstd::utf8::encode_utf8(s).len() == 13 {
        let lo: int = if s.len() < 3 { s.len() as int } else { 3 };
        let hi: int = if s.len() < 12 { s.len() as int } else { 12 };
        let pre = s.subrange(0, lo);
        let core = s.subrange(lo, hi);
        let suf = s.subrange(hi, s.len() as int);
        assert(s =~= pre + core + suf);
        lemma_encode_utf8_concat(pre + core, suf);
        lemma_encode_utf8_concat(pre, core);
        lemma_encode_utf8_at_least_len(pre);
        let c = check_char(weighted_sum(core) % 11);
        assert(vstd::utf8::is_ascii_chars(seq![c]));
        vstd::utf8::is_ascii_chars_encode_utf8(seq![c]);
        assert(k =~= core + seq![c]);
        lemma_encode_utf8_concat(core, seq![c]);
        assert(vstd::utf8::encode_utf8(k).len() <= 11);
    }
}

/// The probes' covers are keyed by IDs that were probed.
pub proof fn lemma_aws_covers_requested(ids: Seq<Seq<char>>, statuses: Seq<Option<u16>>, k: Seq<char>)
    requires
        aws_covers_spec(ids, statuses).dom().contains(k),
    ensures
        ids.contains(k),
{
    let n = if ids.len() <= statuses.len() {
        ids.len()
    } else {
        statuses.len()
    };
    let items = Seq::new(n, |i: int| aws_entry(ids[i], statuses[i]));
    lemma_insert_found_keys(items, k);
    let i = choose|i: int| 0 <= i < items.len() && pair_has_key(#[trigger] items[i], k);
    assert(items[i] == aws_entry(ids[i], statuses[i]));
    assert(ids[i] == k);
}

} // verus!
