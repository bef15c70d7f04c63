use vstd::prelude::*;
use vstd::utf8::encode_utf8;
use hmac::{Hmac, Mac, NewMac};
use sha2::Sha256;

verus! {

// ---------------------------------------------------------------------------
// Outside computations
// ---------------------------------------------------------------------------

/// The HMAC-SHA256 tag of `msg` under `key`.
pub uninterp spec fn hmac_sha256_tag(key: Seq<u8>, msg: Seq<u8>) -> Seq<u8>;

/// The character of the standard base64 alphabet for a value below 64:
/// `A`-`Z`, `a`-`z`, `0`-`9`, `+`, `/`.
pub open spec fn base64_char(v: int) -> char {
    if v < 26 {
        (65 + v) as char
    } else if v < 52 {
        (71 + v) as char
    } else if v < 62 {
        (v - 4) as char
    } else if v == 62 {
        '+'
    } else {
        '/'
    }
}

/// The standard base64 text of `data`: each group of three bytes becomes four
/// characters of six bits each; a final group of one or two bytes is padded
/// with `=` to four characters.
pub open spec fn base64_standard(data: Seq<u8>) -> Seq<char>
    decreases data.len(),
{
    if data.len() == 0 {
        seq![]
    } else {
        let b0 = data[0] as int;
        let b1 = if data.len() > 1 { data[1] as int } else { 0 };
        let b2 = if data.len() > 2 { data[2] as int } else { 0 };
        if data.len() == 1 {
            seq![base64_char(b0 / 4), base64_char((b0 % 4) * 16), '=', '=']
        } else if data.len() == 2 {
            seq![
                base64_char(b0 / 4),
                base64_char((b0 % 4) * 16 + b1 / 16),
                base64_char((b1 % 16) * 4),
                '=',
            ]
        } else {
            seq![
                base64_char(b0 / 4),
                base64_char((b0 % 4) * 16 + b1 / 16),
                base64_char((b1 % 16) * 4 + b2 / 64),
                base64_char(b2 % 64),
            ] + base64_standard(data.skip(3))
        }
    }
}

/// Base64 of a byte string whose length leaves two over a multiple of three
/// has four characters per three bytes, rounded up, and ends in exactly one
/// `=`.
pub proof fn lemma_base64_one_pad(data: Seq<u8>)
    requires
        data.len() % 3 == 2,
    ensures
        base64_standard(data).len() == 4 * ((data.len() + 1) / 3),
        base64_standard(data).last() == '=',
        base64_standard(data)[base64_standard(data).len() - 2] != '=',
    decreases data.len(),
{
    if data.len() > 2 {
        lemma_base64_one_pad(data.skip(3));
    }
}

/// A byte that percent-encoding leaves as it is: ASCII letters, digits and `-_.~`.
pub open spec fn is_unreserved(b: u8) -> bool {
    // '0'..='9', 'A'..='Z', 'a'..='z', '-', '.', '_', '~'
    (48 <= b <= 57) || (65 <= b <= 90) || (97 <= b <= 122) || b == 45 || b == 46 || b == 95
        || b == 126
}

/// The upper-case hexadecimal digit of a value below 16.
pub open spec fn hex_digit_upper(d: u8) -> char {
    if d < 10 {
        (48 + d) as char
    } else {
        (55 + d) as char
    }
}

/// Percent-encoding of a byte string: unreserved bytes stand for themselves,
/// every other byte becomes `%` and two upper-case hexadecimal digits.
pub open spec fn percent_encode(bytes: Seq<u8>) -> Seq<char>
    decreases bytes.len(),
{
    if bytes.len() == 0 {
        seq![]
    } else {
        let b = bytes.last();
        percent_encode(bytes.drop_last()) + if is_unreserved(b) {
            seq![b as char]
        } else {
            seq!['%', hex_digit_upper(b / 16), hex_digit_upper(b % 16)]
        }
    }
}

/// Percent-encoding of the UTF-8 bytes of a text.
pub open spec fn url_encoded(s: Seq<char>) -> Seq<char> {
    percent_encode(encode_utf8(s))
}

/// `urlencoding::encode`: percent-encodes the UTF-8 bytes of `s`, keeping
/// ASCII alphanumerics and `-_.~` and writing every other byte as `%XX` with
/// upper-case hexadecimal digits.
#[verifier::external_body]
fn url_encode(s: &str) -> (res: String)
    ensures
        res@ == url_encoded(s@),
{
    urlencoding::encode(s)
}

/// `base64::encode`: the standard (`+/` alphabet, `=` padded) base64 text of
/// `data`, as `base64_standard` states it.
#[verifier::external_body]
fn base64_encode(data: &[u8]) -> (res: String)
    ensures
        res@ == base64_standard(data@),
{
    base64::encode(data)
}

/// `Hmac::<Sha256>::new_varkey`, `Mac::update` and `Mac::finalize`: the
/// HMAC-SHA256 tag of `msg` under `key`, named by `hmac_sha256_tag`; it is
/// 32 bytes long. `new_varkey` accepts a key of any length for HMAC.
#[verifier::external_body]
fn hmac_sha256(key: &[u8], msg: &[u8]) -> (tag: Vec<u8>)
    ensures
        tag@ == hmac_sha256_tag(key@, msg@),
        tag@.len() == 32,
{
    let mut mac = Hmac::<Sha256>::new_varkey(key).expect("HMAC can take key of any size");
    mac.update(msg);
    mac.finalize().into_bytes().to_vec()
}

/// The pattern of the timestamp that signed requests carry.
pub const TIMESTAMP_FORMAT: &'static str = "%Y-%m-%dT%H:%M:%S";

/// An ASCII decimal digit.
pub open spec fn is_digit(c: char) -> bool {
    48 <= (c as int) <= 57
}

/// A year as `%Y` writes it: four digits for the years 0 to 9999, otherwise
/// a sign and at least four digits.
pub open spec fn is_year_text(y: Seq<char>) -> bool {
    ||| y.len() == 4 && forall|i: int| 0 <= i < 4 ==> is_digit(#[trigger] y[i])
    ||| y.len() >= 5 && (y[0] == '+' || y[0] == '-') && forall|i: int|
        1 <= i < y.len() ==> is_digit(#[trigger] y[i])
}

/// The character at place `i` of `-%m-%dT%H:%M:%S` as it is written: the
/// separators, and a digit elsewhere.
pub open spec fn time_tail_char_ok(i: int, c: char) -> bool {
    if i == 0 || i == 3 {
        c == '-'
    } else if i == 6 {
        c == 'T'
    } else if i == 9 || i == 12 {
        c == ':'
    } else {
        is_digit(c)
    }
}

/// A text written by `TIMESTAMP_FORMAT`: a year, then `-MM-DDTHH:MM:SS`
/// with two digits for each field.
pub open spec fn is_timestamp_text(s: Seq<char>) -> bool {
    &&& s.len() >= 19
    &&& is_year_text(s.take(s.len() - 15))
    &&& forall|i: int| 0 <= i < 15 ==> time_tail_char_ok(i, #[trigger] s[s.len() - 15 + i])
}

/// `chrono::Utc::now().format(pattern).to_string()`, for the pattern
/// `TIMESTAMP_FORMAT` alone (some other patterns make `to_string` panic). The
/// clock decides the value; what holds of every reading is its shape: `%Y`
/// writes four digits for the years 0 to 9999 and a sign with at least four
/// digits otherwise, `%m %d %H %M %S` write two digits each.
#[verifier::external_body]
fn utc_now_formatted(pattern: &str) -> (res: String)
    requires
        pattern@ == TIMESTAMP_FORMAT@,
    ensures
        is_timestamp_text(res@),
{
    chrono::Utc::now().format(pattern).to_string()
}

// ---------------------------------------------------------------------------
// Request parameters
// ---------------------------------------------------------------------------

/// A list of request parameters as pairs of texts.
pub open spec fn pairs_view(v: Seq<(String, String)>) -> Seq<(Seq<char>, Seq<char>)> {
    v.map_values(|p: (String, String)| (p.0@, p.1@))
}

/// The parameters that a list of pairs sets when it is inserted pair after
/// pair into a map: a later pair with the same key replaces an earlier one.
pub open spec fn param_map(pairs: Seq<(Seq<char>, Seq<char>)>) -> Map<Seq<char>, Seq<char>>
    decreases pairs.len(),
{
    if pairs.len() == 0 {
        Map::empty()
    } else {
        param_map(pairs.drop_last()).insert(pairs.last().0, pairs.last().1)
    }
}

/// Lexicographic order of texts, character by character (for UTF-8 texts
/// this is also the order of their bytes).
pub open spec fn text_lt(a: Seq<char>, b: Seq<char>) -> bool
    decreases a.len(),
{
    if a.len() == 0 {
        b.len() > 0
    } else if b.len() == 0 {
        false
    } else if a[0] != b[0] {
        (a[0] as int) < (b[0] as int)
    } else {
        text_lt(a.drop_first(), b.drop_first())
    }
}

/// The keys of `entries` rise strictly from first to last.
pub open spec fn keys_ascending(entries: Seq<(Seq<char>, Seq<char>)>) -> bool {
    forall|i: int, j: int|
        0 <= i < j < entries.len() ==> text_lt(#[trigger] entries[i].0, #[trigger] entries[j].0)
}

/// `entries` lists exactly the key-value pairs of `m`.
pub open spec fn lists_map(
    entries: Seq<(Seq<char>, Seq<char>)>,
    m: Map<Seq<char>, Seq<char>>,
) -> bool {
    &&& forall|i: int|
        0 <= i < entries.len() ==> #[trigger] m.contains_key(entries[i].0) && m[entries[i].0]
            == entries[i].1
    &&& forall|k: Seq<char>|
        #[trigger] m.contains_key(k) ==> exists|i: int| 0 <= i < entries.len() && entries[i].0 == k
}

/// `a` comes before `b`, `b` before `a`, or they are equal.
pub proof fn lemma_text_lt_total(a: Seq<char>, b: Seq<char>)
    ensures
        text_lt(a, b) || text_lt(b, a) || a == b,
        !(text_lt(a, b) && text_lt(b, a)),
        !text_lt(a, a),
    decreases a.len(),
{
    if a.len() > 0 && b.len() > 0 {
        lemma_text_lt_total(a.drop_first(), b.drop_first());
        if a[0] == b[0] && a.drop_first() == b.drop_first() {
            assert(a =~= seq![a[0]] + a.drop_first());
            assert(b =~= seq![b[0]] + b.drop_first());
        }
    } else if a.len() == 0 && b.len() == 0 {
        assert(a =~= b);
    }
    if a.len() > 0 {
        lemma_text_lt_total(a.drop_first(), a.drop_first());
    }
}

/// The order of texts is transitive.
pub proof fn lemma_text_lt_transitive(a: Seq<char>, b: Seq<char>, c: Seq<char>)
    requires
        text_lt(a, b),
        text_lt(b, c),
    ensures
        text_lt(a, c),
    decreases a.len(),
{
    if a.len() > 0 && b.len() > 0 && c.len() > 0 && a[0] == b[0] && b[0] == c[0] {
        lemma_text_lt_transitive(a.drop_first(), b.drop_first(), c.drop_first());
    }
}

/// Compares two texts in the order `text_lt`.
pub fn text_less(a: &str, b: &str) -> (res: bool)
    ensures
        res == text_lt(a@, b@),
{
    let na = a.unicode_len();
    let nb = b.unicode_len();
    let mut i: usize = 0;
    assert(a@.skip(0) =~= a@);
    assert(b@.skip(0) =~= b@);
    while i < na && i < nb
        invariant
            na == a@.len(),
            nb == b@.len(),
            i <= na,
            i <= nb,
            text_lt(a@, b@) == text_lt(a@.skip(i as int), b@.skip(i as int)),
        decreases na - i,
    {
        let ca = a.get_char(i);
        let cb = b.get_char(i);
        if ca != cb {
            return (ca as u32) < (cb as u32);
        }
        assert(a@.skip(i as int).drop_first() =~= a@.skip(i + 1));
        assert(b@.skip(i as int).drop_first() =~= b@.skip(i + 1));
        i = i + 1;
    }
    i < nb
}

/// Distinct positions of an ascending list hold distinct keys.
proof fn lemma_ascending_distinct(entries: Seq<(Seq<char>, Seq<char>)>, i: int, j: int)
    requires
        keys_ascending(entries),
        0 <= i < entries.len(),
        0 <= j < entries.len(),
        i != j,
    ensures
        entries[i].0 != entries[j].0,
{
    if i < j {
        lemma_text_lt_total(entries[i].0, entries[j].0);
    } else {
        lemma_text_lt_total(entries[j].0, entries[i].0);
    }
}

/// Setting the value of a key that an ascending list holds keeps it ascending
/// and makes it list the updated map.
proof fn lemma_replace_entry(
    old_s: Seq<(Seq<char>, Seq<char>)>,
    j: int,
    k: Seq<char>,
    v: Seq<char>,
    m: Map<Seq<char>, Seq<char>>,
)
    requires
        keys_ascending(old_s),
        lists_map(old_s, m),
        0 <= j < old_s.len(),
        old_s[j].0 == k,
    ensures
        keys_ascending(old_s.update(j, (k, v))),
        lists_map(old_s.update(j, (k, v)), m.insert(k, v)),
{
    let s = old_s.update(j, (k, v));
    assert forall|t: int| 0 <= t < s.len() && t != j implies old_s[t].0 != k by {
        lemma_ascending_distinct(old_s, t, j);
    }
    assert forall|kk: Seq<char>| #[trigger] m.insert(k, v).contains_key(kk) implies exists|t: int|
        0 <= t < s.len() && s[t].0 == kk by {
        if kk == k {
            assert(s[j].0 == kk);
        } else {
            let t = choose|t: int| 0 <= t < old_s.len() && old_s[t].0 == kk;
            assert(s[t].0 == kk);
        }
    }
}

/// Inserting a new key at its place keeps a list ascending and makes it list
/// the extended map.
proof fn lemma_insert_entry(
    old_s: Seq<(Seq<char>, Seq<char>)>,
    j: int,
    k: Seq<char>,
    v: Seq<char>,
    m: Map<Seq<char>, Seq<char>>,
)
    requires
        keys_ascending(old_s),
        lists_map(old_s, m),
        0 <= j <= old_s.len(),
        forall|t: int| 0 <= t < j ==> text_lt(#[trigger] old_s[t].0, k),
        j < old_s.len() ==> !text_lt(old_s[j].0, k) && old_s[j].0 != k,
    ensures
        keys_ascending(old_s.insert(j, (k, v))),
        lists_map(old_s.insert(j, (k, v)), m.insert(k, v)),
{
    let s = old_s.insert(j, (k, v));
    if j < old_s.len() {
        lemma_text_lt_total(old_s[j].0, k);
    }
    assert forall|t: int| j <= t < old_s.len() implies text_lt(k, #[trigger] old_s[t].0) by {
        if t > j {
            lemma_text_lt_transitive(k, old_s[j].0, old_s[t].0);
        }
    }
    assert forall|t: int| 0 <= t < old_s.len() implies #[trigger] old_s[t].0 != k by {
        lemma_text_lt_total(old_s[t].0, k);
    }
    assert forall|a: int, b: int| 0 <= a < b < s.len() implies text_lt(
        #[trigger] s[a].0,
        #[trigger] s[b].0,
    ) by {
        if b < j {
        } else if a < j && b == j {
        } else if a < j {
            lemma_text_lt_transitive(s[a].0, k, s[b].0);
        } else if a == j {
        } else {
            assert(s[a] == old_s[a - 1]);
            assert(s[b] == old_s[b - 1]);
        }
    }
    assert forall|kk: Seq<char>| #[trigger] m.insert(k, v).contains_key(kk) implies exists|t: int|
        0 <= t < s.len() && s[t].0 == kk by {
        if kk == k {
            assert(s[j].0 == kk);
        } else {
            let t = choose|t: int| 0 <= t < old_s.len() && old_s[t].0 == kk;
            if t < j {
                assert(s[t].0 == kk);
            } else {
                assert(s[t + 1].0 == kk);
            }
        }
    }
}

/// The pairs ordered by key, each key once, with the value that the last pair
/// with that key gives it.
pub fn sorted_params(pairs: &Vec<(String, String)>) -> (res: Vec<(String, String)>)
    ensures
        keys_ascending(pairs_view(res@)),
        lists_map(pairs_view(res@), param_map(pairs_view(pairs@))),
        pairs_view(res@) == ascending_entries(param_map(pairs_view(pairs@))),
{
    let mut res: Vec<(String, String)> = Vec::new();
    let mut i: usize = 0;
    assert(pairs_view(pairs@).take(0) =~= Seq::<(Seq<char>, Seq<char>)>::empty());
    while i < pairs.len()
        invariant
            i <= pairs.len(),
            keys_ascending(pairs_view(res@)),
            lists_map(pairs_view(res@), param_map(pairs_view(pairs@).take(i as int))),
        decreases pairs.len() - i,
    {
        let ghost old_s = pairs_view(res@);
        let ghost m = param_map(pairs_view(pairs@).take(i as int));
        let key = &pairs[i].0;
        let val = &pairs[i].1;
        let ghost k = key@;
        let ghost v = val@;
        assert(pairs_view(pairs@).take(i + 1).drop_last() =~= pairs_view(pairs@).take(i as int));
        assert(param_map(pairs_view(pairs@).take(i + 1)) == m.insert(k, v));
        let mut j: usize = 0;
        while j < res.len()
            invariant
                j <= res.len(),
                old_s == pairs_view(res@),
                k == key@,
                forall|t: int| 0 <= t < j ==> text_lt(#[trigger] old_s[t].0, k),
            ensures
                j <= res.len(),
                old_s == pairs_view(res@),
                forall|t: int| 0 <= t < j ==> text_lt(#[trigger] old_s[t].0, k),
                j < res.len() ==> !text_lt(old_s[j as int].0, k),
            decreases res.len() - j,
        {
            assert(old_s[j as int].0 == res@[j as int].0@);
            if !text_less(res[j].0.as_str(), key.as_str()) {
                break;
            }
            j = j + 1;
        }
        let replace = j < res.len() && res[j].0 == *key;
        if replace {
            res.set(j, (key.clone(), val.clone()));
            assert(pairs_view(res@) =~= old_s.update(j as int, (k, v)));
            proof {
                lemma_replace_entry(old_s, j as int, k, v, m);
            }
        } else {
            res.insert(j, (key.clone(), val.clone()));
            assert(pairs_view(res@) =~= old_s.insert(j as int, (k, v)));
            proof {
                lemma_insert_entry(old_s, j as int, k, v, m);
            }
        }
        i = i + 1;
    }
    assert(pairs_view(pairs@).take(pairs.len() as int) =~= pairs_view(pairs@));
    proof {
        let m = param_map(pairs_view(pairs@));
        let e = pairs_view(res@);
        lemma_ascending_entries_unique(e, ascending_entries(m), m);
    }
    res
}

/// The ascending list of the key-value pairs of `m`.
pub open spec fn ascending_entries(m: Map<Seq<char>, Seq<char>>) -> Seq<(Seq<char>, Seq<char>)> {
    choose|e: Seq<(Seq<char>, Seq<char>)>| keys_ascending(e) && lists_map(e, m)
}

/// A map has one ascending list of its pairs at most.
pub proof fn lemma_ascending_entries_unique(
    e: Seq<(Seq<char>, Seq<char>)>,
    f: Seq<(Seq<char>, Seq<char>)>,
    m: Map<Seq<char>, Seq<char>>,
)
    requires
        keys_ascending(e),
        lists_map(e, m),
        keys_ascending(f),
        lists_map(f, m),
    ensures
        e == f,
    decreases e.len(),
{
    if e.len() == 0 {
        if f.len() > 0 {
            assert(m.contains_key(f[0].0));
        }
        assert(e =~= f);
    } else {
        assert(m.contains_key(e[0].0));
        let t = choose|t: int| 0 <= t < f.len() && f[t].0 == e[0].0;
        assert(m.contains_key(f[0].0));
        let u = choose|u: int| 0 <= u < e.len() && e[u].0 == f[0].0;
        if t > 0 {
            lemma_text_lt_total(f[0].0, e[0].0);
            if u > 0 {
                assert(text_lt(e[0].0, e[u].0));
            }
            assert(false);
        }
        let x = e[0].0;
        assert(f[0].0 == x);
        let m2 = m.remove(x);
        let e2 = e.drop_first();
        let f2 = f.drop_first();
        assert forall|i: int| 0 <= i < e2.len() implies #[trigger] m2.contains_key(e2[i].0)
            && m2[e2[i].0] == e2[i].1 by {
            lemma_ascending_distinct(e, 0, i + 1);
        }
        assert forall|k: Seq<char>| #[trigger] m2.contains_key(k) implies exists|i: int|
            0 <= i < e2.len() && e2[i].0 == k by {
            let i = choose|i: int| 0 <= i < e.len() && e[i].0 == k;
            assert(e2[i - 1].0 == k);
        }
        assert forall|i: int| 0 <= i < f2.len() implies #[trigger] m2.contains_key(f2[i].0)
            && m2[f2[i].0] == f2[i].1 by {
            lemma_ascending_distinct(f, 0, i + 1);
        }
        assert forall|k: Seq<char>| #[trigger] m2.contains_key(k) implies exists|i: int|
            0 <= i < f2.len() && f2[i].0 == k by {
            let i = choose|i: int| 0 <= i < f.len() && f[i].0 == k;
            assert(f2[i - 1].0 == k);
        }
        lemma_ascending_entries_unique(e2, f2, m2);
        assert(e =~= seq![e[0]] + e2);
        assert(f =~= seq![f[0]] + f2);
    }
}

/// The place where `k` goes in an ascending list: after every smaller key,
/// before every other.
proof fn insert_position(e: Seq<(Seq<char>, Seq<char>)>, k: Seq<char>) -> (j: int)
    requires
        keys_ascending(e),
    ensures
        0 <= j <= e.len(),
        forall|t: int| 0 <= t < j ==> text_lt(#[trigger] e[t].0, k),
        j < e.len() ==> !text_lt(e[j].0, k),
    decreases e.len(),
{
    if e.len() == 0 {
        0
    } else if text_lt(e.last().0, k) {
        assert forall|t: int| 0 <= t < e.len() implies text_lt(#[trigger] e[t].0, k) by {
            if t < e.len() - 1 {
                lemma_text_lt_transitive(e[t].0, e.last().0, k);
            }
        }
        e.len() as int
    } else {
        let d = e.drop_last();
        let j = insert_position(d, k);
        assert(forall|t: int| 0 <= t < j ==> d[t] == e[t]);
        j
    }
}

/// The parameters that a list of pairs sets are finitely many.
pub proof fn lemma_param_map_finite(pairs: Seq<(Seq<char>, Seq<char>)>)
    ensures
        param_map(pairs).dom().finite(),
    decreases pairs.len(),
{
    if pairs.len() > 0 {
        lemma_param_map_finite(pairs.drop_last());
    }
}

/// Every finite map has an ascending list of its pairs, and
/// `ascending_entries` is that list.
pub proof fn lemma_ascending_entries_exist(m: Map<Seq<char>, Seq<char>>)
    requires
        m.dom().finite(),
    ensures
        keys_ascending(ascending_entries(m)),
        lists_map(ascending_entries(m), m),
    decreases m.dom().len(),
{
    if m.dom().len() == 0 {
        let e = Seq::<(Seq<char>, Seq<char>)>::empty();
        assert forall|k: Seq<char>| #[trigger] m.contains_key(k) implies exists|i: int|
            0 <= i < e.len() && e[i].0 == k by {
            assert(m.dom().contains(k));
            vstd::set_lib::lemma_set_empty_equivalency_len(m.dom());
        }
        assert(keys_ascending(e) && lists_map(e, m));
    } else {
        let k = m.dom().choose();
        let v = m[k];
        let m2 = m.remove(k);
        assert(m2.dom() =~= m.dom().remove(k));
        lemma_ascending_entries_exist(m2);
        let e2 = ascending_entries(m2);
        let j = insert_position(e2, k);
        if j < e2.len() {
            assert(m2.contains_key(e2[j].0));
        }
        lemma_insert_entry(e2, j, k, v, m2);
        assert(m2.insert(k, v) =~= m);
        let e = e2.insert(j, (k, v));
        assert(keys_ascending(e) && lists_map(e, m));
    }
}

/// The query text of a list of parameters: `key=value&` for each pair, the
/// value percent-encoded, in the order of the list.
pub open spec fn query_string(entries: Seq<(Seq<char>, Seq<char>)>) -> Seq<char>
    decreases entries.len(),
{
    if entries.len() == 0 {
        seq![]
    } else {
        query_string(entries.drop_last()) + entries.last().0 + seq!['='] + url_encoded(
            entries.last().1,
        ) + seq!['&']
    }
}

/// Writes the query text of `entries`.
pub fn encode_query(entries: &Vec<(String, String)>) -> (res: String)
    ensures
        res@ == query_string(pairs_view(entries@)),
{
    let mut res = String::new();
    let mut i: usize = 0;
    proof {
        reveal_strlit("=");
        reveal_strlit("&");
    }
    assert(pairs_view(entries@).take(0) =~= Seq::<(Seq<char>, Seq<char>)>::empty());
    while i < entries.len()
        invariant
            i <= entries.len(),
            res@ == query_string(pairs_view(entries@).take(i as int)),
            "="@ == seq!['='],
            "&"@ == seq!['&'],
        decreases entries.len() - i,
    {
        let key = &entries[i].0;
        let enc = url_encode(entries[i].1.as_str());
        res.append(key.as_str());
        res.append("=");
        res.append(enc.as_str());
        res.append("&");
        assert(pairs_view(entries@).take(i + 1).drop_last() =~= pairs_view(entries@).take(i as int));
        i = i + 1;
    }
    assert(pairs_view(entries@).take(entries.len() as int) =~= pairs_view(entries@));
    res
}

/// Inserting `a` and then `b` sets what `a` sets, overridden where `b` sets
/// the same key.
pub proof fn lemma_param_map_concat(a: Seq<(Seq<char>, Seq<char>)>, b: Seq<(Seq<char>, Seq<char>)>)
    ensures
        param_map(a + b) == param_map(a).union_prefer_right(param_map(b)),
    decreases b.len(),
{
    if b.len() == 0 {
        assert(a + b =~= a);
        assert(param_map(a).union_prefer_right(param_map(b)) =~= param_map(a));
    } else {
        lemma_param_map_concat(a, b.drop_last());
        assert((a + b).drop_last() =~= a + b.drop_last());
        assert(param_map(a + b) =~= param_map(a).union_prefer_right(param_map(b)));
    }
}

// ---------------------------------------------------------------------------
// Signed requests
// ---------------------------------------------------------------------------

/// A client of the exchange API: its access key, its secret key and the host
/// it talks to.
pub struct HbApi {
    access_key: String,
    secret_key: String,
    host: String,
}

/// The texts that an `HbApi` holds.
pub struct HbApiView {
    pub access_key: Seq<char>,
    pub secret_key: Seq<char>,
    pub host: Seq<char>,
}

impl View for HbApi {
    type V = HbApiView;

    closed spec fn view(&self) -> HbApiView {
        HbApiView { access_key: self.access_key@, secret_key: self.secret_key@, host: self.host@ }
    }
}

/// A request ready to be sent: its full URL, and the query text that the URL
/// carries before the signature.
pub struct SignedRequest {
    pub url: String,
    pub query: String,
}

/// The parameters that every signed request carries.
pub open spec fn signature_params(access_key: Seq<char>, timestamp: Seq<char>) -> Seq<
    (Seq<char>, Seq<char>),
> {
    seq![
        ("AccessKeyId"@, access_key),
        ("SignatureMethod"@, "HmacSHA256"@),
        ("SignatureVersion"@, "2"@),
        ("Timestamp"@, timestamp),
    ]
}

/// The query text of a signed request: the signature parameters, then the
/// caller's, which override them, listed by ascending key.
pub open spec fn signed_query(
    access_key: Seq<char>,
    timestamp: Seq<char>,
    params: Seq<(Seq<char>, Seq<char>)>,
) -> Seq<char> {
    query_string(ascending_entries(param_map(signature_params(access_key, timestamp) + params)))
}

/// The text that is signed: method, host, path and the query without its
/// final `&`, one per line.
pub open spec fn signing_payload(
    method: Seq<char>,
    host: Seq<char>,
    path: Seq<char>,
    query: Seq<char>,
) -> Seq<char> {
    method + seq!['\n'] + host + seq!['\n'] + path + seq!['\n'] + query.drop_last()
}

/// The signature of a payload: its HMAC-SHA256 tag under the secret key, in
/// base64, percent-encoded.
pub open spec fn signature(secret_key: Seq<char>, payload: Seq<char>) -> Seq<char> {
    url_encoded(base64_standard(hmac_sha256_tag(encode_utf8(secret_key), encode_utf8(payload))))
}

/// The URL of a signed request.
pub open spec fn signed_url(
    host: Seq<char>,
    path: Seq<char>,
    query: Seq<char>,
    signature: Seq<char>,
) -> Seq<char> {
    "https://"@ + host + path + seq!['?'] + query + "Signature="@ + signature
}

/// The request whose method, path and query are given, signed with `api`.
pub open spec fn signed_request(
    api: HbApiView,
    method: Seq<char>,
    path: Seq<char>,
    query: Seq<char>,
) -> Seq<char> {
    signed_url(
        api.host,
        path,
        query,
        signature(api.secret_key, signing_payload(method, api.host, path, query)),
    )
}

impl HbApi {
    /// A client with the given keys, for the given host.
    pub fn new(access_key: &str, secret_key: &str, host: &str) -> (res: HbApi)
        ensures
            res@ == (HbApiView { access_key: access_key@, secret_key: secret_key@, host: host@ }),
    {
        HbApi {
            access_key: String::from_str(access_key),
            secret_key: String::from_str(secret_key),
            host: String::from_str(host),
        }
    }

    /// The signature parameters at `timestamp`, followed by `param`.
    pub fn json_param_at(&self, param: &Vec<(String, String)>, timestamp: &str) -> (res: Vec<
        (String, String),
    >)
        ensures
            pairs_view(res@) == signature_params(self@.access_key, timestamp@) + pairs_view(
                param@,
            ),
    {
        let mut map: Vec<(String, String)> = Vec::new();
        map.push((String::from_str("AccessKeyId"), self.access_key.clone()));
        map.push((String::from_str("SignatureMethod"), String::from_str("HmacSHA256")));
        map.push((String::from_str("SignatureVersion"), String::from_str("2")));
        map.push((String::from_str("Timestamp"), String::from_str(timestamp)));
        let ghost base = pairs_view(map@);
        assert(base =~= signature_params(self@.access_key, timestamp@));
        let mut i: usize = 0;
        while i < param.len()
            invariant
                i <= param.len(),
                pairs_view(map@) == base + pairs_view(param@).take(i as int),
            decreases param.len() - i,
        {
            let ghost before = pairs_view(map@);
            let k = param[i].0.clone();
            let v = param[i].1.clone();
            map.push((k, v));
            assert(pairs_view(map@) =~= before.push((k@, v@)));
            assert(pairs_view(param@).take(i + 1) =~= pairs_view(param@).take(i as int).push(
                (k@, v@),
            ));
            assert(pairs_view(map@) =~= base + pairs_view(param@).take(i + 1));
            i = i + 1;
        }
        assert(pairs_view(param@).take(param.len() as int) =~= pairs_view(param@));
        map
    }

    /// The signature parameters at the current time, followed by `param`.
    pub fn json_param(&self, param: &Vec<(String, String)>) -> (res: Vec<(String, String)>)
        ensures
            exists|timestamp: Seq<char>|
                is_timestamp_text(timestamp) &&
                pairs_view(res@) == signature_params(self@.access_key, timestamp) + pairs_view(
                    param@,
                ),
    {
        let timestamp = utc_now_formatted(TIMESTAMP_FORMAT);
        self.json_param_at(param, timestamp.as_str())
    }

    /// The query text of a request with `param` signed at `timestamp`.
    pub fn url_param_at(&self, param: &Vec<(String, String)>, timestamp: &str) -> (res: String)
        ensures
            res@ == signed_query(self@.access_key, timestamp@, pairs_view(param@)),
            res@.len() > 0,
            res@.last() == '&',
            ({
                let m = param_map(signature_params(self@.access_key, timestamp@) + pairs_view(
                    param@,
                ));
                let e = ascending_entries(m);
                &&& keys_ascending(e)
                &&& lists_map(e, m)
            }),
    {
        let map = self.json_param_at(param, timestamp);
        let sorted = sorted_params(&map);
        let res = encode_query(&sorted);
        proof {
            let all = pairs_view(map@);
            let m = param_map(all);
            assert(m.contains_key(all.last().0));
            let e = pairs_view(sorted@);
            assert(e.len() > 0);
            assert(query_string(e) == query_string(e.drop_last()) + e.last().0 + seq!['=']
                + url_encoded(e.last().1) + seq!['&']);
        }
        res
    }

    /// The query text of a request with `param` signed at the current time.
    pub fn url_param(&self, param: &Vec<(String, String)>) -> (res: String)
        ensures
            exists|timestamp: Seq<char>|
                is_timestamp_text(timestamp) &&
                res@ == signed_query(self@.access_key, timestamp, pairs_view(param@)),
            res@.len() > 0,
    {
        let timestamp = utc_now_formatted(TIMESTAMP_FORMAT);
        self.url_param_at(param, timestamp.as_str())
    }

    /// The signature of `payload` under the secret key.
    pub fn hmac_base64_encode(&self, payload: &str) -> (res: String)
        ensures
            res@ == signature(self@.secret_key, payload@),
            ({
                let code = base64_standard(
                    hmac_sha256_tag(encode_utf8(self@.secret_key), encode_utf8(payload@)),
                );
                &&& code.len() == 44
                &&& code.last() == '='
                &&& code[42] != '='
            }),
    {
        let tag = hmac_sha256(self.secret_key.as_str().as_bytes(), payload.as_bytes());
        proof {
            lemma_base64_one_pad(tag@);
        }
        let code = base64_encode(tag.as_slice());
        url_encode(code.as_str())
    }

    /// Signs a request whose query text is given.
    fn sign(&self, method: &str, req_url: &str, query: String) -> (res: SignedRequest)
        requires
            query@.len() > 0,
        ensures
            res.query@ == query@,
            res.url@ == signed_request(self@, method@, req_url@, query@),
    {
        let n = query.as_str().unicode_len();
        let trimmed = query.as_str().substring_char(0, n - 1);
        let mut payload = String::new();
        payload.append(method);
        payload.append("\n");
        payload.append(self.host.as_str());
        payload.append("\n");
        payload.append(req_url);
        payload.append("\n");
        payload.append(trimmed);
        proof {
            reveal_strlit("\n");
            assert(trimmed@ =~= query@.drop_last());
            assert(payload@ =~= signing_payload(method@, self@.host, req_url@, query@));
        }
        let sig = self.hmac_base64_encode(payload.as_str());
        let mut url = String::new();
        url.append("https://");
        url.append(self.host.as_str());
        url.append(req_url);
        url.append("?");
        url.append(query.as_str());
        url.append("Signature=");
        url.append(sig.as_str());
        proof {
            reveal_strlit("?");
            assert(url@ =~= signed_request(self@, method@, req_url@, query@));
        }
        SignedRequest { url, query }
    }

    /// The signed GET request for `req_url` with `param`, at `timestamp`.
    pub fn http_get_request_at(
        &self,
        req_url: &str,
        param: &Vec<(String, String)>,
        timestamp: &str,
    ) -> (res: SignedRequest)
        ensures
            res.query@ == signed_query(self@.access_key, timestamp@, pairs_view(param@)),
            res.url@ == signed_request(self@, "GET"@, req_url@, res.query@),
    {
        let query = self.url_param_at(param, timestamp);
        self.sign("GET", req_url, query)
    }

    /// The signed GET request for `req_url` with `param`, at the current time.
    pub fn http_get_request(&self, req_url: &str, param: &Vec<(String, String)>) -> (res:
        SignedRequest)
        ensures
            exists|timestamp: Seq<char>|
                is_timestamp_text(timestamp) &&
                res.query@ == signed_query(self@.access_key, timestamp, pairs_view(param@)),
            res.url@ == signed_request(self@, "GET"@, req_url@, res.query@),
    {
        let timestamp = utc_now_formatted(TIMESTAMP_FORMAT);
        self.http_get_request_at(req_url, param, timestamp.as_str())
    }

    /// The signed POST request for `req_url` at `timestamp`; it carries the
    /// signature parameters alone.
    pub fn http_post_request_at(&self, req_url: &str, timestamp: &str) -> (res: SignedRequest)
        ensures
            res.query@ == signed_query(self@.access_key, timestamp@, seq![]),
            res.url@ == signed_request(self@, "POST"@, req_url@, res.query@),
    {
        let none: Vec<(String, String)> = Vec::new();
        assert(pairs_view(none@) =~= seq![]);
        let query = self.url_param_at(&none, timestamp);
        self.sign("POST", req_url, query)
    }

    /// The signed POST request for `req_url` at the current time.
    pub fn http_post_request(&self, req_url: &str) -> (res: SignedRequest)
        ensures
            exists|timestamp: Seq<char>|
                is_timestamp_text(timestamp) &&
                res.query@ == signed_query(self@.access_key, timestamp, seq![]),
            res.url@ == signed_request(self@, "POST"@, req_url@, res.query@),
    {
        let timestamp = utc_now_formatted(TIMESTAMP_FORMAT);
        self.http_post_request_at(req_url, timestamp.as_str())
    }

    /// The signed request that lists the trading symbols.
    pub fn get_symbols_request(&self) -> (res: SignedRequest)
        ensures
            exists|timestamp: Seq<char>|
                is_timestamp_text(timestamp) &&
                res.query@ == signed_query(self@.access_key, timestamp, seq![]),
            res.url@ == signed_request(self@, "GET"@, "/v1/common/symbols"@, res.query@),
    {
        let none: Vec<(String, String)> = Vec::new();
        assert(pairs_view(none@) =~= seq![]);
        self.http_get_request("/v1/common/symbols", &none)
    }

    /// The URL of the latest one-minute candle of `currency` against USDT,
    /// whose close is the current price.
    pub fn get_current_amount_url(&self, currency: &str) -> (res: String)
        ensures
            res@ == "https://"@ + self@.host + "/market/history/kline?period=1min&symbol="@
                + currency@ + "usdt&size=1"@,
    {
        let mut url = String::from_str("https://");
        url.append(self.host.as_str());
        url.append("/market/history/kline?period=1min&symbol=");
        url.append(currency);
        url.append("usdt&size=1");
        url
    }
}

/// The signed query depends on the parameters that the caller's list sets,
/// not on the order of its pairs.
pub proof fn lemma_signed_query_depends_on_map(
    access_key: Seq<char>,
    timestamp: Seq<char>,
    a: Seq<(Seq<char>, Seq<char>)>,
    b: Seq<(Seq<char>, Seq<char>)>,
)
    requires
        param_map(a) == param_map(b),
    ensures
        signed_query(access_key, timestamp, a) == signed_query(access_key, timestamp, b),
{
    lemma_param_map_concat(signature_params(access_key, timestamp), a);
    lemma_param_map_concat(signature_params(access_key, timestamp), b);
}

} // verus!
