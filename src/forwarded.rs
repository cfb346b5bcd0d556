use crate::ip::{denotes, parse_ip, parse_ipv4, parse_ipv6, IpAddress};
use crate::text::{
    lower_of, lowercase, chars_before, split_chars, split_on, strip_chars, stripped, sub_chars, before_first, views,
};
use hyper::header::HeaderValue;
use hyper::HeaderMap;
use vstd::prelude::*;

verus! {

#[verifier::external_type_specification]
#[verifier::external_body]
#[verifier::reject_recursive_types(T)]
pub struct ExHeaderMap<T>(HeaderMap<T>);

#[verifier::external_type_specification]
#[verifier::external_body]
pub struct ExHeaderValue(HeaderValue);

/// The first value stored under each header name, names in lower case.
pub uninterp spec fn header_fields(h: HeaderMap) -> Map<Seq<u8>, Seq<u8>>;

/// The text that `String::from_utf8_lossy` makes of some bytes.
pub uninterp spec fn lossy_of(b: Seq<u8>) -> Seq<char>;

/// A character that may stand in a header name.
pub open spec fn header_char(c: char) -> bool {
    c == '!' || ('"' <= c <= '\'') || c == '*' || c == '+' || c == '-' || c == '.' || ('0' <= c
        <= '9') || ('A' <= c <= 'Z') || ('^' <= c <= 'z') || c == '|' || c == '~'
}

/// A header name that a map can hold: 1 to 65535 valid characters.
pub open spec fn header_name_ok(n: Seq<char>) -> bool {
    &&& 1 <= n.len() <= 65535
    &&& forall|i: int| 0 <= i < n.len() ==> header_char(#[trigger] n[i])
}

/// The key under which a header name is stored: its bytes in ASCII lower case.
pub open spec fn header_key(n: Seq<char>) -> Seq<u8> {
    n.map_values(|c: char| if 'A' <= c <= 'Z' { (c as int + 32) as u8 } else { c as u8 })
}

/// Relies on HeaderMap::get with a `&str` name and HeaderValue::as_bytes: the
/// first value under the name, the name compared without regard to ASCII
/// case; a name that is empty, too long or holds a character outside the
/// header-name table finds nothing.
#[verifier::external_body]
fn header_bytes(h: &HeaderMap, name: &str) -> (r: Option<Vec<u8>>)
    ensures
        !header_name_ok(name@) ==> r is None,
        header_name_ok(name@) ==> (r is Some <==> header_fields(*h).contains_key(header_key(name@))),
        header_name_ok(name@) ==> (r matches Some(v) ==> v@ == header_fields(*h)[header_key(name@)]),
{
    h.get(name).map(|v| v.as_bytes().to_vec())
}

/// Relies on String::from_utf8_lossy: invalid sequences become U+FFFD.
#[verifier::external_body]
fn lossy_text(b: &Vec<u8>) -> (r: Vec<char>)
    ensures
        r@ == lossy_of(b@),
{
    String::from_utf8_lossy(b).chars().collect()
}

/// The address written first in a list: the text before the first comma,
/// without surrounding white space and then without quotes and brackets.
pub open spec fn address_token_of(s: Seq<char>) -> Seq<char> {
    stripped(stripped(before_first(s, ','), false), true)
}

/// `for=` starts at position `k` of `s`.
pub open spec fn is_for_at(s: Seq<char>, k: int) -> bool {
    0 <= k && k + 4 <= s.len() && s[k] == 'f' && s[k + 1] == 'o' && s[k + 2] == 'r' && s[k + 3]
        == '='
}

pub open spec fn first_for(s: Seq<char>, k: int) -> bool {
    is_for_at(s, k) && forall|j: int| 0 <= j < k ==> !#[trigger] is_for_at(s, j)
}

/// The address given by the first `for=` of a `Forwarded` element, if it has one.
pub open spec fn for_value(piece: Seq<char>) -> Option<Seq<char>> {
    if exists|k: int| first_for(piece, k) {
        let k = choose|k: int| first_for(piece, k);
        Some(address_token_of(piece.skip(k + 4)))
    } else {
        None
    }
}

/// The address of the first `;`-separated element that holds a `for=`.
pub open spec fn forwarded_candidate(pieces: Seq<Seq<char>>) -> Option<Seq<char>>
    decreases pieces.len(),
{
    if pieces.len() == 0 {
        None
    } else if for_value(pieces[0]) is Some {
        for_value(pieces[0])
    } else {
        forwarded_candidate(pieces.drop_first())
    }
}

/// The address text chosen from the header values (as bytes): the configured
/// header first; unless only that header may be used, then `X-Forwarded-For`,
/// then `Forwarded`.
pub open spec fn candidate_text(
    custom: Option<Seq<u8>>,
    x_forwarded_for: Option<Seq<u8>>,
    forwarded: Option<Seq<u8>>,
    only_custom: bool,
) -> Option<Seq<char>> {
    match custom {
        Some(b) => Some(lower_of(stripped(lossy_of(b), false))),
        None => if only_custom {
            None
        } else {
            match x_forwarded_for {
                Some(b) => Some(lower_of(address_token_of(lossy_of(b)))),
                None => match forwarded {
                    Some(b) => forwarded_candidate(split_on(lower_of(lossy_of(b)), ';')),
                    None => None,
                },
            }
        },
    }
}

/// `r` is what reading the candidate text as an address gives.
pub open spec fn read_candidate(t: Option<Seq<char>>, r: Option<IpAddress>) -> bool {
    match t {
        None => r is None,
        Some(t) => {
            &&& (r is Some <==> (parse_ipv4(t) is Some || parse_ipv6(t) is Some))
            &&& (r matches Some(ip) ==> denotes(t, ip))
        },
    }
}

pub open spec fn name_of(n: Option<&str>) -> Option<Seq<char>> {
    match n {
        Some(n) => Some(n@),
        None => None,
    }
}

/// The value of the configured header, when one is configured and present.
pub open spec fn custom_value(headers: HeaderMap, name: Option<Seq<char>>) -> Option<Seq<u8>> {
    match name {
        Some(n) => if header_name_ok(n) {
            header_fields(headers).get(header_key(n))
        } else {
            None
        },
        None => None,
    }
}

/// `r` is the address that the headers give, as described at
/// [`get_forwarded_ip_from_headers`].
pub open spec fn forwarded_result(
    headers: HeaderMap,
    name: Option<Seq<char>>,
    only_custom: bool,
    r: Option<IpAddress>,
) -> bool {
    read_candidate(
        candidate_text(
            custom_value(headers, name),
            header_fields(headers).get(header_key("x-forwarded-for"@)),
            header_fields(headers).get(header_key("forwarded"@)),
            only_custom,
        ),
        r,
    )
}

pub open spec fn value_of(v: Option<Vec<u8>>) -> Option<Seq<u8>> {
    match v {
        Some(v) => Some(v@),
        None => None,
    }
}

/// The address token of a list value such as `X-Forwarded-For`.
pub fn address_token(s: &Vec<char>) -> (r: Vec<char>)
    ensures
        r@ == address_token_of(s@),
{
    let first = chars_before(s, ',');
    let trimmed = strip_chars(&first, false);
    strip_chars(&trimmed, true)
}

/// The text after the first `for=` of `s`, if any.
fn after_for(s: &Vec<char>) -> (r: Option<Vec<char>>)
    ensures
        r is Some <==> exists|k: int| first_for(s@, k),
        r matches Some(a) ==> a@ == s@.skip((choose|k: int| first_for(s@, k)) + 4),
{
    let mut k: usize = 0;
    while s.len() >= 4 && k <= s.len() - 4
        invariant
            k <= s@.len(),
            forall|j: int| 0 <= j < k ==> !#[trigger] is_for_at(s@, j),
        decreases s.len() - k,
    {
        if s[k] == 'f' && s[k + 1] == 'o' && s[k + 2] == 'r' && s[k + 3] == '=' {
            assert(first_for(s@, k as int));
            let ghost c = choose|c: int| first_for(s@, c);
            assert(c == k) by {
                if c < k {
                    assert(!is_for_at(s@, c));
                } else if c > k {
                    assert(!is_for_at(s@, k as int));
                }
            }
            return Some(sub_chars(s, k + 4, s.len()));
        }
        k = k + 1;
    }
    assert forall|c: int| !first_for(s@, c) by {
        if first_for(s@, c) && c >= k {
            assert(c + 4 > s@.len());
        }
    }
    None
}

/// The address of a lower-cased `Forwarded` value: taken from the first
/// `;`-separated element that holds a `for=`.
pub fn forwarded_for_value(lowered: &Vec<char>) -> (r: Option<Vec<char>>)
    ensures
        r is Some <==> forwarded_candidate(split_on(lowered@, ';')) is Some,
        r matches Some(a) ==> Some(a@) == forwarded_candidate(split_on(lowered@, ';')),
{
    let pieces = split_chars(lowered, ';');
    let ghost ps = views(pieces@);
    let mut i: usize = 0;
    assert(ps.skip(0) =~= ps);
    while i < pieces.len()
        invariant
            i <= pieces@.len() == ps.len(),
            ps == views(pieces@),
            forwarded_candidate(split_on(lowered@, ';')) == forwarded_candidate(ps.skip(i as int)),
        decreases pieces.len() - i,
    {
        assert(ps.skip(i as int)[0] == pieces@[i as int]@);
        assert(ps.skip(i as int).drop_first() =~= ps.skip(i + 1));
        match after_for(&pieces[i]) {
            Some(a) => {
                return Some(address_token(&a));
            },
            None => {},
        }
        i = i + 1;
    }
    None
}

/// The client address given by forwarding headers, if any: the configured
/// header when present; unless only that header may be used, the first entry
/// of `X-Forwarded-For`; then the first `for=` of `Forwarded`. The text is
/// read as an IPv4 address, else as an IPv6 address; when neither fits there
/// is no address.
pub fn get_forwarded_ip_from_headers(
    headers: &HeaderMap,
    forwarded_ip_header: Option<&str>,
    use_forwarded_ip_header_only: bool,
) -> (r: Option<IpAddress>)
    ensures
        forwarded_result(*headers, name_of(forwarded_ip_header), use_forwarded_ip_header_only, r),
{
    proof {
        reveal_strlit("x-forwarded-for");
        reveal_strlit("forwarded");
    }
    let custom = match forwarded_ip_header {
        Some(n) => header_bytes(headers, n),
        None => None,
    };
    let xff = header_bytes(headers, "x-forwarded-for");
    let fwd = header_bytes(headers, "forwarded");
    let ghost fields = header_fields(*headers);
    assert(value_of(xff) == fields.get(header_key("x-forwarded-for"@)));
    assert(value_of(fwd) == fields.get(header_key("forwarded"@)));
    let text: Option<Vec<char>> = match custom {
        Some(b) => {
            let t = lossy_text(&b);
            Some(lowercase(&strip_chars(&t, false)))
        },
        None => if use_forwarded_ip_header_only {
            None
        } else {
            match xff {
                Some(b) => {
                    let t = lossy_text(&b);
                    Some(lowercase(&address_token(&t)))
                },
                None => match fwd {
                    Some(b) => {
                        let t = lossy_text(&b);
                        forwarded_for_value(&lowercase(&t))
                    },
                    None => None,
                },
            }
        },
    };
    let ghost cand = candidate_text(
        value_of(custom),
        value_of(xff),
        value_of(fwd),
        use_forwarded_ip_header_only,
    );
    assert(match text {
        Some(t) => cand == Some(t@),
        None => cand is None,
    });
    let r = match text {
        Some(t) => parse_ip(&t),
        None => None,
    };
    assert(read_candidate(cand, r));
    assert(value_of(custom) == custom_value(*headers, name_of(forwarded_ip_header)));
    r
}

/// When only the configured header may be used and no header of that name
/// is present (or none is configured), there is no address, whatever
/// `X-Forwarded-For` and `Forwarded` say.
pub proof fn lemma_only_custom_header(headers: HeaderMap, name: Option<Seq<char>>, r: Option<IpAddress>)
    requires
        custom_value(headers, name) is None,
        forwarded_result(headers, name, true, r),
    ensures
        r is None,
{
}

} // verus!
