//! Security codes: exchange suffixes, A-share recognition and symbol normalisation.
use vstd::prelude::*;
use crate::order::{sorted_unique, strictly_sorted, texts};
use crate::text::{all_digits, chars_of, extend_chars, extend_str, find_first, find_last, first_pos, is_alnum,
    is_digit, last_pos, lemma_first_pos, lemma_last_pos, slice_of, starts_with_str, string_of,
    trim, trim_vec, upper_seq, upper_vec, vec_all_digits,
};

verus! {

/// The parts before and after the last `.` (`str::rsplit_once('.')`).
pub open spec fn rsplit_dot(s: Seq<char>) -> Option<(Seq<char>, Seq<char>)> {
    match last_pos(s, '.') {
        Some(k) => Some((s.subrange(0, k), s.subrange(k + 1, s.len() as int))),
        None => None,
    }
}

/// The parts before and after the first `.` (`str::split_once('.')`).
pub open spec fn split_dot(s: Seq<char>) -> Option<(Seq<char>, Seq<char>)> {
    match first_pos(s, '.') {
        Some(k) => Some((s.subrange(0, k), s.subrange(k + 1, s.len() as int))),
        None => None,
    }
}

pub open spec fn two(a: char, b: char) -> Seq<char> {
    seq![a, b]
}

/// One of the three mainland exchanges, written in upper case.
pub open spec fn is_exchange_name(u: Seq<char>) -> bool {
    u == two('S', 'H') || u == two('S', 'Z') || u == two('B', 'J')
}

/// A gRPC endpoint address with an explicit scheme.
pub open spec fn normalized_base_url(raw: Seq<char>) -> Seq<char> {
    let t = trim(raw);
    if "http://"@.is_prefix_of(t) || "https://"@.is_prefix_of(t) {
        t
    } else {
        "http://"@ + t
    }
}

/// The ASCII digits of `s`, in order.
pub open spec fn digits_of(s: Seq<char>) -> Seq<char>
    decreases s.len(),
{
    if s.len() == 0 {
        s
    } else if is_digit(s.last()) {
        digits_of(s.drop_last()).push(s.last())
    } else {
        digits_of(s.drop_last())
    }
}

pub open spec fn digit_val(c: char) -> int {
    (c as u32) - 48
}

/// The number formed by the first three digits.
pub open spec fn prefix3(d: Seq<char>) -> int {
    100 * digit_val(d[0]) + 10 * digit_val(d[1]) + digit_val(d[2])
}

/// Shanghai A-share boards: 600, 601, 603, 605, 688, 689.
pub open spec fn sh_a_prefix(p: int) -> bool {
    p == 600 || p == 601 || p == 603 || p == 605 || p == 688 || p == 689
}

/// Shenzhen A-share boards: 000, 001, 002, 003, 300, 301.
pub open spec fn sz_a_prefix(p: int) -> bool {
    p == 0 || p == 1 || p == 2 || p == 3 || p == 300 || p == 301
}

/// Whether a code belongs to the Shanghai/Shenzhen A-share market.
pub open spec fn hsa_a_share(code: Seq<char>) -> bool {
    let t = trim(code);
    if t.len() == 0 {
        false
    } else {
        let symbol = match rsplit_dot(t) {
            Some(parts) => trim(parts.0),
            None => t,
        };
        let d = digits_of(symbol);
        if d.len() < 6 {
            false
        } else {
            let p = prefix3(d);
            match rsplit_dot(t) {
                Some(parts) => {
                    let e = upper_seq(trim(parts.1));
                    if e == two('S', 'H') {
                        sh_a_prefix(p)
                    } else if e == two('S', 'Z') {
                        sz_a_prefix(p)
                    } else {
                        false
                    }
                },
                None => sh_a_prefix(p) || sz_a_prefix(p),
            }
        }
    }
}

/// A character allowed in either half of a `code.market` key.
pub open spec fn code_part_char(c: char) -> bool {
    is_alnum(c) || c == '_'
}

/// Exactly one dot, with non-empty alphanumeric (or `_`) text on both sides.
pub open spec fn likely_code_spec(s: Seq<char>) -> bool {
    match first_pos(s, '.') {
        Some(k) => 0 < k && k + 1 < s.len() && forall|i: int|
            0 <= i < s.len() && i != k ==> code_part_char(#[trigger] s[i]),
        None => false,
    }
}

pub open spec fn is_market_spec(v: Seq<char>) -> bool {
    is_exchange_name(upper_seq(trim(v)))
}

pub open spec fn is_code_spec(v: Seq<char>) -> bool {
    let t = trim(v);
    t.len() > 0 && all_digits(t)
}

/// `(code, MARKET)` read from `code.market` or `market.code`.
pub open spec fn split_symbol_spec(symbol: Seq<char>) -> Option<(Seq<char>, Seq<char>)> {
    match split_dot(trim(symbol)) {
        Some(parts) => {
            let left = trim(parts.0);
            let right = trim(parts.1);
            if is_market_spec(left) && is_code_spec(right) {
                Some((right, upper_seq(left)))
            } else if is_code_spec(left) && is_market_spec(right) {
                Some((left, upper_seq(right)))
            } else {
                None
            }
        },
        None => None,
    }
}

/// Why a symbol was refused.
#[derive(Debug, Clone, Copy, PartialEq, Eq, Structural)]
pub enum SymbolError {
    /// No `.` between code and exchange.
    MissingSeparator,
    /// The code is not six ASCII digits.
    InvalidCode,
    /// The exchange is not SH, SZ or BJ.
    InvalidExchange,
}

/// `code.EXCHANGE` for a six-digit code on SH, SZ or BJ.
pub open spec fn normalize_symbol_spec(input: Seq<char>) -> Result<Seq<char>, SymbolError> {
    let t = trim(input);
    match rsplit_dot(t) {
        None => Err(SymbolError::MissingSeparator),
        Some(parts) => {
            let code = parts.0;
            let exchange = upper_seq(trim(parts.1));
            if !(code.len() == 6 && all_digits(code)) {
                Err(SymbolError::InvalidCode)
            } else if !is_exchange_name(exchange) {
                Err(SymbolError::InvalidExchange)
            } else {
                Ok(code + seq!['.'] + exchange)
            }
        },
    }
}

fn is_pair(u: &Vec<char>, a: char, b: char) -> (r: bool)
    ensures
        r == (u@ == two(a, b)),
{
    let r = u.len() == 2 && u[0] == a && u[1] == b;
    assert(r == (u@ == two(a, b))) by {
        if u@ == two(a, b) {
            assert(u@[0] == a && u@[1] == b);
        }
        if r {
            assert(u@ =~= two(a, b));
        }
    }
    r
}

fn is_exchange_vec(u: &Vec<char>) -> (r: bool)
    ensures
        r == is_exchange_name(u@),
{
    is_pair(u, 'S', 'H') || is_pair(u, 'S', 'Z') || is_pair(u, 'B', 'J')
}

/// Prefixes `http://` unless the trimmed address already names a scheme.
pub fn normalize_base_url(raw: &str) -> (r: String)
    ensures
        r@ == normalized_base_url(raw@),
{
    let v = chars_of(raw);
    let t = trim_vec(&v);
    if starts_with_str(&t, "http://") || starts_with_str(&t, "https://") {
        string_of(&t)
    } else {
        let mut out: Vec<char> = Vec::new();
        extend_str(&mut out, "http://");
        extend_chars(&mut out, &t);
        string_of(&out)
    }
}

fn digits_vec(v: &Vec<char>) -> (r: Vec<char>)
    ensures
        r@ == digits_of(v@),
{
    let mut r: Vec<char> = Vec::new();
    let mut i: usize = 0;
    while i < v.len()
        invariant
            i <= v.len(),
            r@ == digits_of(v@.subrange(0, i as int)),
        decreases v.len() - i,
    {
        assert(v@.subrange(0, i + 1).drop_last() =~= v@.subrange(0, i as int));
        if '0' <= v[i] && v[i] <= '9' {
            r.push(v[i]);
        }
        i = i + 1;
    }
    assert(v@.subrange(0, v.len() as int) =~= v@);
    r
}

/// Whether `code` is a Shanghai or Shenzhen A-share; Beijing and other
/// exchanges are refused.
pub fn is_hsa_a_share(code: &str) -> (r: bool)
    ensures
        r == hsa_a_share(code@),
{
    let v = chars_of(code);
    let t = trim_vec(&v);
    if t.len() == 0 {
        return false;
    }
    let dot = find_last(&t, '.');
    let symbol = match dot {
        Some(k) => {
            let left = slice_of(&t, 0, k);
            trim_vec(&left)
        },
        None => t.clone(),
    };
    let d = digits_vec(&symbol);
    if d.len() < 6 {
        return false;
    }
    proof {
        lemma_digits_of_all_digits(symbol@);
        assert(is_digit(d@[0]) && is_digit(d@[1]) && is_digit(d@[2]));
    }
    let p: u32 = 100 * (d[0] as u32 - 48) + 10 * (d[1] as u32 - 48) + (d[2] as u32 - 48);
    let sh = p == 600 || p == 601 || p == 603 || p == 605 || p == 688 || p == 689;
    let sz = p == 0 || p == 1 || p == 2 || p == 3 || p == 300 || p == 301;
    match dot {
        Some(k) => {
            let right = slice_of(&t, k + 1, t.len());
            let rt = trim_vec(&right);
            let e = upper_vec(&rt);
            if is_pair(&e, 'S', 'H') {
                sh
            } else if is_pair(&e, 'S', 'Z') {
                sz
            } else {
                false
            }
        },
        None => sh || sz,
    }
}

pub proof fn lemma_digits_of_all_digits(s: Seq<char>)
    ensures
        all_digits(digits_of(s)),
        digits_of(s).len() <= s.len(),
    decreases s.len(),
{
    if s.len() > 0 {
        lemma_digits_of_all_digits(s.drop_last());
    }
}

/// Whether a key looks like `code.market`: one dot between two non-empty
/// runs of ASCII letters, digits or `_`.
pub fn likely_code(s: &str) -> (r: bool)
    ensures
        r == likely_code_spec(s@),
{
    let v = chars_of(s);
    proof {
        lemma_first_pos(v@, '.');
    }
    let found = find_first(&v, '.');
    if found.is_none() {
        return false;
    }
    let k = found.unwrap();
    assert(k < v.len());
    if k == 0 || k + 1 >= v.len() {
        return false;
    }
    let mut i: usize = 0;
    while i < v.len()
        invariant
            i <= v.len(),
            first_pos(v@, '.') == Some(k as int),
            v@ == s@,
            0 < k,
            k + 1 < v.len(),
            forall|j: int| 0 <= j < i && j != k ==> code_part_char(#[trigger] v@[j]),
        decreases v.len() - i,
    {
        if i != k {
            let c = v[i];
            let ok = ('0' <= c && c <= '9') || ('A' <= c && c <= 'Z') || ('a' <= c && c <= 'z')
                || c == '_';
            if !ok {
                assert(!code_part_char(v@[i as int]));
                return false;
            }
        }
        i = i + 1;
    }
    true
}

/// Whether the trimmed text names SH, SZ or BJ, in any case.
pub fn is_market(value: &str) -> (r: bool)
    ensures
        r == is_market_spec(value@),
{
    let v = chars_of(value);
    market_vec(&v)
}

fn market_vec(v: &Vec<char>) -> (r: bool)
    ensures
        r == is_market_spec(v@),
{
    let t = trim_vec(v);
    let u = upper_vec(&t);
    is_exchange_vec(&u)
}

/// Whether the trimmed text is a non-empty run of ASCII digits.
pub fn is_code(value: &str) -> (r: bool)
    ensures
        r == is_code_spec(value@),
{
    let v = chars_of(value);
    code_vec(&v)
}

fn code_vec(v: &Vec<char>) -> (r: bool)
    ensures
        r == is_code_spec(v@),
{
    let t = trim_vec(v);
    t.len() > 0 && vec_all_digits(&t)
}

/// Splits `000001.SZ` or `SZ.000001` into the code and the upper-case market.
pub fn split_symbol(symbol: &str) -> (r: Option<(String, String)>)
    ensures
        match r {
            Some(p) => split_symbol_spec(symbol@) == Some((p.0@, p.1@)),
            None => split_symbol_spec(symbol@) is None,
        },
{
    let v = chars_of(symbol);
    let t = trim_vec(&v);
    let k = match find_first(&t, '.') {
        Some(k) => k,
        None => return None,
    };
    proof {
        lemma_first_pos(t@, '.');
    }
    let l0 = slice_of(&t, 0, k);
    let r0 = slice_of(&t, k + 1, t.len());
    let left = trim_vec(&l0);
    let right = trim_vec(&r0);
    if market_vec(&left) && code_vec(&right) {
        let m = upper_vec(&left);
        return Some((string_of(&right), string_of(&m)));
    }
    if code_vec(&left) && market_vec(&right) {
        let m = upper_vec(&right);
        return Some((string_of(&left), string_of(&m)));
    }
    None
}

/// Normalises `code.exchange` to a six-digit code and an upper-case
/// exchange among SH, SZ and BJ.
pub fn normalize_symbol(input: &str) -> (r: Result<String, SymbolError>)
    ensures
        match r {
            Ok(s) => normalize_symbol_spec(input@) == Ok::<Seq<char>, SymbolError>(s@),
            Err(e) => normalize_symbol_spec(input@) == Err::<Seq<char>, SymbolError>(e),
        },
{
    let v = chars_of(input);
    let t = trim_vec(&v);
    let k = match find_last(&t, '.') {
        Some(k) => k,
        None => return Err(SymbolError::MissingSeparator),
    };
    proof {
        lemma_last_pos(t@, '.');
    }
    let code = slice_of(&t, 0, k);
    let ex0 = slice_of(&t, k + 1, t.len());
    let ex1 = trim_vec(&ex0);
    let exchange = upper_vec(&ex1);
    if !(code.len() == 6 && vec_all_digits(&code)) {
        return Err(SymbolError::InvalidCode);
    }
    if !is_exchange_vec(&exchange) {
        return Err(SymbolError::InvalidExchange);
    }
    let mut out = code.clone();
    out.push('.');
    extend_chars(&mut out, &exchange);
    assert(out@ =~= code@ + seq!['.'] + exchange@);
    Ok(string_of(&out))
}

/// The exchange after the last `.` of a symbol.
pub fn parse_exchange(symbol: &str) -> (r: Result<String, SymbolError>)
    ensures
        match r {
            Ok(s) => rsplit_dot(symbol@) matches Some(parts) && s@ == parts.1,
            Err(e) => rsplit_dot(symbol@) is None && e == SymbolError::MissingSeparator,
        },
{
    let v = chars_of(symbol);
    match find_last(&v, '.') {
        Some(k) => {
            let ex = slice_of(&v, k + 1, v.len());
            Ok(string_of(&ex))
        },
        None => Err(SymbolError::MissingSeparator),
    }
}

/// The sector whose members are the Shanghai and Shenzhen A-shares.
pub fn hs_a_share_sector_name() -> (r: &'static str)
    ensures
        r@ == "沪深A股"@,
{
    "沪深A股"
}

/// `p` holds exactly the A-share codes that `c` holds.
pub open spec fn picks_a_shares(p: Seq<Seq<char>>, c: Seq<Seq<char>>) -> bool {
    forall|x: Seq<char>|
        #![trigger p.contains(x)]
        #![trigger c.contains(x)]
        p.contains(x) <==> (hsa_a_share(x) && c.contains(x))
}

/// The A-share codes among those a sector lists, sorted and without
/// repeats; empty when there are none.
pub fn hs_a_share_codes(codes: &[String]) -> (r: Vec<String>)
    ensures
        strictly_sorted(texts(r@)),
        forall|x: Seq<char>| texts(r@).contains(x) <==> (hsa_a_share(x) && texts(codes@).contains(x)),
{
    let mut picked: Vec<String> = Vec::new();
    let mut i: usize = 0;
    while i < codes.len()
        invariant
            i <= codes.len(),
            picks_a_shares(texts(picked@), texts(codes@.subrange(0, i as int))),
        decreases codes.len() - i,
    {
        let ghost before = picked@;
        let keep = is_hsa_a_share(codes[i].as_str());
        if keep {
            picked.push(codes[i].clone());
        }
        proof {
            let old_t = texts(codes@.subrange(0, i as int));
            let new_t = texts(codes@.subrange(0, i + 1));
            assert(new_t =~= old_t.push(codes@[i as int]@));
            if keep {
                assert(texts(picked@) =~= texts(before).push(codes@[i as int]@));
            } else {
                assert(texts(picked@) =~= texts(before));
            }
            assert(keep == hsa_a_share(codes@[i as int]@));
            assert(picks_a_shares(texts(before), old_t));
            assert forall|x: Seq<char>| texts(picked@).contains(x) implies (hsa_a_share(x) && new_t.contains(x)) by {
                let k = choose|k: int| 0 <= k < texts(picked@).len() && texts(picked@)[k] == x;
                if keep && k == texts(picked@).len() - 1 {
                    assert(new_t[i as int] == x);
                } else {
                    assert(texts(before)[k] == x);
                    assert(texts(before).contains(x));
                    assert(old_t.contains(x));
                    let j = choose|j: int| 0 <= j < old_t.len() && old_t[j] == x;
                    assert(new_t[j] == x);
                }
            }
            assert forall|x: Seq<char>| (hsa_a_share(x) && new_t.contains(x)) implies texts(picked@).contains(x) by {
                let j = choose|j: int| 0 <= j < new_t.len() && new_t[j] == x;
                if j == i {
                    assert(texts(picked@)[texts(picked@).len() - 1] == x);
                } else {
                    assert(old_t[j] == x);
                    assert(old_t.contains(x));
                    assert(texts(before).contains(x));
                    let m = choose|m: int| 0 <= m < texts(before).len() && texts(before)[m] == x;
                    assert(texts(picked@)[m] == x);
                }
            }
        }
        i = i + 1;
    }
    assert(codes@.subrange(0, codes.len() as int) =~= codes@);
    let ghost unsorted = texts(picked@);
    assert(picks_a_shares(unsorted, texts(codes@)));
    let out = sorted_unique(picked);
    assert forall|x: Seq<char>| texts(out@).contains(x) <==> (hsa_a_share(x) && texts(codes@).contains(x)) by {
        assert(texts(out@).contains(x) == unsorted.contains(x));
    }
    out
}

/// A symbol that `normalize_symbol` produced normalizes to itself.
pub proof fn law_normalize_symbol_idempotent(input: Seq<char>, normalized: Seq<char>)
    requires
        normalize_symbol_spec(input) == Ok::<Seq<char>, SymbolError>(normalized),
    ensures
        normalize_symbol_spec(normalized) == Ok::<Seq<char>, SymbolError>(normalized),
{
    let t = trim(input);
    let parts = rsplit_dot(t)->0;
    let code = parts.0;
    let exchange = upper_seq(trim(parts.1));
    assert(normalized == code + seq!['.'] + exchange);
    assert(normalized.len() == 9);
    assert(is_digit(code[0]));
    assert(normalized[0] == code[0]);
    assert(normalized[8] == exchange[1]);
    crate::text::lemma_trim_unchanged(normalized);
    crate::text::lemma_last_pos(normalized, '.');
    assert(normalized[6] == '.');
    assert(normalized[7] != '.' && normalized[8] != '.');
    let k = last_pos(normalized, '.')->0;
    if k < 6 {
        assert(normalized[k] == code[k]);
    }
    assert(k == 6);
    assert(normalized.subrange(0, 6) =~= code);
    assert(normalized.subrange(7, 9) =~= exchange);
    crate::text::lemma_trim_unchanged(exchange);
    assert(upper_seq(exchange) =~= exchange);
}

/// An address that already went through `normalize_base_url` is left as it is.
pub proof fn law_normalized_base_url_idempotent(raw: Seq<char>)
    ensures
        normalized_base_url(normalized_base_url(raw)) == normalized_base_url(raw),
{
    reveal_strlit("http://");
    reveal_strlit("https://");
    let t = trim(raw);
    crate::text::lemma_trim_idempotent(raw);
    if !("http://"@.is_prefix_of(t) || "https://"@.is_prefix_of(t)) {
        let u = "http://"@ + t;
        crate::text::lemma_trim_start_shape(raw);
        crate::text::lemma_trim_end_shape(crate::text::trim_start(raw));
        assert(u[0] == 'h');
        if t.len() > 0 {
            assert(u.last() == t.last());
        } else {
            assert(u.last() == '/');
        }
        crate::text::lemma_trim_unchanged(u);
        assert(u.subrange(0, 7) =~= "http://"@);
    }
}


proof fn lemma_digits_of_digits(s: Seq<char>)
    requires
        all_digits(s),
    ensures
        digits_of(s) == s,
    decreases s.len(),
{
    if s.len() > 0 {
        lemma_digits_of_digits(s.drop_last());
        assert(s.drop_last().push(s.last()) =~= s);
    }
}

/// The first three characters of a code are the three given digits exactly
/// when its three-digit prefix has their value.
proof fn lemma_prefix_is(d: Seq<char>, lit: Seq<char>)
    requires
        d.len() >= 3,
        lit.len() == 3,
        is_digit(d[0]) && is_digit(d[1]) && is_digit(d[2]),
        is_digit(lit[0]) && is_digit(lit[1]) && is_digit(lit[2]),
    ensures
        (d.subrange(0, 3) == lit) <==> prefix3(d) == prefix3(lit),
{
    if prefix3(d) == prefix3(lit) {
        assert(digit_val(d[0]) == digit_val(lit[0]));
        assert(digit_val(d[1]) == digit_val(lit[1]));
        assert(digit_val(d[2]) == digit_val(lit[2]));
        assert forall|i: int| 0 <= i < 3 implies d[i] == lit[i] by {
            vstd::utf8::char_u32_cast(d[i], d[i] as u32);
            vstd::utf8::char_u32_cast(lit[i], lit[i] as u32);
        }
        assert(d.subrange(0, 3) =~= lit);
    }
    if d.subrange(0, 3) == lit {
        assert(d[0] == lit[0] && d[1] == lit[1] && d[2] == lit[2]);
    }
}

/// A six-digit code with a market suffix: the market is read from what
/// follows the dot and the board from the digits before it.
proof fn lemma_suffixed_code(d: Seq<char>, market: Seq<char>)
    requires
        d.len() == 6,
        all_digits(d),
        market == "SZ"@ || market == "SH"@ || market == "sz"@ || market == "sh"@,
    ensures
        hsa_a_share(d + seq!['.'] + market) == if market == "SZ"@ || market == "sz"@ {
            sz_a_prefix(prefix3(d))
        } else {
            sh_a_prefix(prefix3(d))
        },
{
    reveal_strlit("SZ");
    reveal_strlit("SH");
    reveal_strlit("sz");
    reveal_strlit("sh");
    let s = d + seq!['.'] + market;
    assert(s.len() == 9);
    assert(s[0] == d[0]);
    assert(s[8] == market[1]);
    crate::text::lemma_trim_unchanged(s);
    lemma_last_pos(s, '.');
    assert(s[6] == '.');
    assert(s[7] != '.' && s[8] != '.');
    let k = last_pos(s, '.')->0;
    if k < 6 {
        assert(s[k] == d[k]);
    }
    assert(k == 6);
    assert(s.subrange(0, 6) =~= d);
    assert(s.subrange(7, 9) =~= market);
    crate::text::lemma_trim_unchanged(d);
    crate::text::lemma_trim_unchanged(market);
    lemma_digits_of_digits(d);
    if market == "SZ"@ || market == "sz"@ {
        assert(upper_seq(market) =~= two('S', 'Z'));
    } else {
        assert(upper_seq(market) =~= two('S', 'H'));
        assert(upper_seq(market) != two('S', 'Z'));
    }
}

/// A bare six-digit code is read as a code of either market.
proof fn lemma_bare_code(d: Seq<char>)
    requires
        d.len() == 6,
        all_digits(d),
    ensures
        hsa_a_share(d) == (sh_a_prefix(prefix3(d)) || sz_a_prefix(prefix3(d))),
{
    crate::text::lemma_trim_unchanged(d);
    lemma_last_pos(d, '.');
    if last_pos(d, '.') is Some {
        let k = last_pos(d, '.')->0;
        assert(is_digit(d[k]));
    }
    lemma_digits_of_digits(d);
}

/// The Shenzhen A-share boards are the codes beginning 000, 001, 002, 003,
/// 300 and 301, and the Shanghai ones those beginning 600, 601, 603, 605,
/// 688 and 689: a six-digit code with `.SZ` (or `.SH`, in either case) is
/// an A-share exactly when its first three digits are one of these, and a
/// bare six-digit code when they are one of either list.
pub proof fn law_a_share_boards(d: Seq<char>)
    requires
        d.len() == 6,
        all_digits(d),
    ensures
        hsa_a_share(d + ".SZ"@) <==> {
            let p = d.subrange(0, 3);
            ||| p == "000"@
            ||| p == "001"@
            ||| p == "002"@
            ||| p == "003"@
            ||| p == "300"@
            ||| p == "301"@
        },
        hsa_a_share(d + ".SH"@) <==> {
            let p = d.subrange(0, 3);
            ||| p == "600"@
            ||| p == "601"@
            ||| p == "603"@
            ||| p == "605"@
            ||| p == "688"@
            ||| p == "689"@
        },
        hsa_a_share(d + ".sz"@) == hsa_a_share(d + ".SZ"@),
        hsa_a_share(d + ".sh"@) == hsa_a_share(d + ".SH"@),
        hsa_a_share(d) == (hsa_a_share(d + ".SZ"@) || hsa_a_share(d + ".SH"@)),
{
    reveal_strlit(".sz");
    reveal_strlit(".sh");
    reveal_strlit("sz");
    reveal_strlit("sh");
    assert(d + ".sz"@ =~= d + seq!['.'] + "sz"@);
    assert(d + ".sh"@ =~= d + seq!['.'] + "sh"@);
    lemma_suffixed_code(d, "sz"@);
    lemma_suffixed_code(d, "sh"@);
    lemma_bare_code(d);
    reveal_strlit(".SZ");
    reveal_strlit(".SH");
    reveal_strlit("SZ");
    reveal_strlit("SH");
    reveal_strlit("000");
    reveal_strlit("001");
    reveal_strlit("002");
    reveal_strlit("003");
    reveal_strlit("300");
    reveal_strlit("301");
    reveal_strlit("600");
    reveal_strlit("601");
    reveal_strlit("603");
    reveal_strlit("605");
    reveal_strlit("688");
    reveal_strlit("689");
    assert(d + ".SZ"@ =~= d + seq!['.'] + "SZ"@);
    assert(d + ".SH"@ =~= d + seq!['.'] + "SH"@);
    lemma_suffixed_code(d, "SZ"@);
    lemma_suffixed_code(d, "SH"@);
    assert(is_digit(d[0]) && is_digit(d[1]) && is_digit(d[2]));
    lemma_prefix_is(d, "000"@);
    lemma_prefix_is(d, "001"@);
    lemma_prefix_is(d, "002"@);
    lemma_prefix_is(d, "003"@);
    lemma_prefix_is(d, "300"@);
    lemma_prefix_is(d, "301"@);
    lemma_prefix_is(d, "600"@);
    lemma_prefix_is(d, "601"@);
    lemma_prefix_is(d, "603"@);
    lemma_prefix_is(d, "605"@);
    lemma_prefix_is(d, "688"@);
    lemma_prefix_is(d, "689"@);
}


/// A six-digit code, a dot and two letters split at that dot.
proof fn lemma_split_code(d: Seq<char>, m: Seq<char>)
    requires
        d.len() == 6,
        all_digits(d),
        m.len() == 2,
        m[0] != '.' && m[1] != '.',
        !crate::text::is_ws(m[0]) && !crate::text::is_ws(m[1]),
    ensures
        trim(d + seq!['.'] + m) == d + seq!['.'] + m,
        rsplit_dot(d + seq!['.'] + m) == Some((d, m)),
        trim(m) == m,
{
    let s = d + seq!['.'] + m;
    assert(s[0] == d[0]);
    assert(s[8] == m[1]);
    crate::text::lemma_trim_unchanged(s);
    crate::text::lemma_trim_unchanged(m);
    lemma_last_pos(s, '.');
    assert(s[6] == '.');
    assert(s[7] == m[0] && s[8] == m[1]);
    let k = last_pos(s, '.')->0;
    if k < 6 {
        assert(s[k] == d[k]);
    }
    assert(k == 6);
    assert(s.subrange(0, 6) =~= d);
    assert(s.subrange(7, 9) =~= m);
}

/// A six-digit code of the Shanghai, Shenzhen or Beijing exchange, with the
/// exchange written in either case, normalises to the code, a dot and the
/// exchange in upper case.
pub proof fn law_normalize_symbol_markets(d: Seq<char>)
    requires
        d.len() == 6,
        all_digits(d),
    ensures
        normalize_symbol_spec(d + ".SH"@) == Ok::<Seq<char>, SymbolError>(d + ".SH"@),
        normalize_symbol_spec(d + ".SZ"@) == Ok::<Seq<char>, SymbolError>(d + ".SZ"@),
        normalize_symbol_spec(d + ".BJ"@) == Ok::<Seq<char>, SymbolError>(d + ".BJ"@),
        normalize_symbol_spec(d + ".sh"@) == Ok::<Seq<char>, SymbolError>(d + ".SH"@),
        normalize_symbol_spec(d + ".sz"@) == Ok::<Seq<char>, SymbolError>(d + ".SZ"@),
        normalize_symbol_spec(d + ".bj"@) == Ok::<Seq<char>, SymbolError>(d + ".BJ"@),
        normalize_symbol_spec(d + ".HK"@) == Err::<Seq<char>, SymbolError>(SymbolError::InvalidExchange),
{
    reveal_strlit(".SH");
    reveal_strlit(".SZ");
    reveal_strlit(".BJ");
    reveal_strlit(".sh");
    reveal_strlit(".sz");
    reveal_strlit(".bj");
    reveal_strlit(".HK");
    assert(".SH"@ =~= seq!['.', 'S', 'H']);
    assert(".SZ"@ =~= seq!['.', 'S', 'Z']);
    assert(".BJ"@ =~= seq!['.', 'B', 'J']);
    assert(".sh"@ =~= seq!['.', 's', 'h']);
    assert(".sz"@ =~= seq!['.', 's', 'z']);
    assert(".bj"@ =~= seq!['.', 'b', 'j']);
    assert(".HK"@ =~= seq!['.', 'H', 'K']);
    let ms = seq![seq!['S', 'H'], seq!['S', 'Z'], seq!['B', 'J'], seq!['s', 'h'], seq!['s', 'z'], seq!['b', 'j'], seq!['H', 'K']];
    assert forall|i: int| 0 <= i < 7 implies {
        let m = #[trigger] ms[i];
        &&& rsplit_dot(d + seq!['.'] + m) == Some((d, m))
        &&& trim(d + seq!['.'] + m) == d + seq!['.'] + m
        &&& trim(m) == m
    } by {
        lemma_split_code(d, ms[i]);
    }
    assert(ms[0] == seq!['S', 'H']);
    assert(ms[1] == seq!['S', 'Z']);
    assert(ms[2] == seq!['B', 'J']);
    assert(ms[3] == seq!['s', 'h']);
    assert(ms[4] == seq!['s', 'z']);
    assert(ms[5] == seq!['b', 'j']);
    assert(ms[6] == seq!['H', 'K']);
    assert(d + ".SH"@ =~= d + seq!['.'] + ms[0]);
    assert(d + ".SZ"@ =~= d + seq!['.'] + ms[1]);
    assert(d + ".BJ"@ =~= d + seq!['.'] + ms[2]);
    assert(d + ".sh"@ =~= d + seq!['.'] + ms[3]);
    assert(d + ".sz"@ =~= d + seq!['.'] + ms[4]);
    assert(d + ".bj"@ =~= d + seq!['.'] + ms[5]);
    assert(d + ".HK"@ =~= d + seq!['.'] + ms[6]);
    assert(upper_seq(ms[0]) =~= ms[0]);
    assert(upper_seq(ms[1]) =~= ms[1]);
    assert(upper_seq(ms[2]) =~= ms[2]);
    assert(upper_seq(ms[3]) =~= ms[0]);
    assert(upper_seq(ms[4]) =~= ms[1]);
    assert(upper_seq(ms[5]) =~= ms[2]);
    assert(upper_seq(ms[6]) =~= ms[6]);
    assert(d + seq!['.'] + ms[0] =~= d + ".SH"@);
}

} // verus!
