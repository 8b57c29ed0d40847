//! Requests of the command protocol, and the rules that turn a request line into one.
//!
//! JSON decoding happens outside the library; `parse_request` receives its outcome and
//! decides between it and the interactive shorthand.
use vstd::prelude::*;
use crate::split::chars_of;

verus! {

pub const SEARCH_DEFAULT_START_INDEX: usize = 0;

pub const SEARCH_DEFAULT_MAX_ITEMS: usize = 10;

pub const CLIMATE_DEFAULT_START_INDEX: usize = 0;

pub const CLIMATE_DEFAULT_MAX_ITEMS: usize = 100;

/// `{"command": "searchCity", "query": "Tokyo", "startIndex": 0, "maxItems": 4}`
#[derive(Clone, Debug)]
pub struct CitySearchRequest {
    pub query: String,
    pub start_index: Option<usize>,
    pub max_items: Option<usize>,
}

/// `{"command": "searchClimate", "cityId": 34040, "startIndex": 0, "maxItems": 5}`
#[derive(Clone, Copy, Debug, PartialEq, Eq)]
pub struct ClimateSearchRequest {
    pub city_id: usize,
    pub start_index: Option<usize>,
    pub max_items: Option<usize>,
}

/// A request: search by name, or search by climate similarity.
#[derive(Clone, Debug)]
pub enum CityRequest {
    SearchCity(CitySearchRequest),
    SearchClimate(ClimateSearchRequest),
}

/// The same requests under the name the command protocol gives them.
pub type CityCommand = CityRequest;

impl CitySearchRequest {
    /// `(start_index, max_items)`, with the defaults of a name search.
    pub fn paging(&self) -> (r: (usize, usize))
        ensures
            r.0 == (match self.start_index {
                Some(s) => s,
                None => SEARCH_DEFAULT_START_INDEX,
            }),
            r.1 == (match self.max_items {
                Some(m) => m,
                None => SEARCH_DEFAULT_MAX_ITEMS,
            }),
    {
        (
            match self.start_index {
                Some(s) => s,
                None => SEARCH_DEFAULT_START_INDEX,
            },
            match self.max_items {
                Some(m) => m,
                None => SEARCH_DEFAULT_MAX_ITEMS,
            },
        )
    }
}

impl ClimateSearchRequest {
    /// `(start_index, max_items)`, with the defaults of a climate search.
    pub fn paging(&self) -> (r: (usize, usize))
        ensures
            r.0 == (match self.start_index {
                Some(s) => s,
                None => CLIMATE_DEFAULT_START_INDEX,
            }),
            r.1 == (match self.max_items {
                Some(m) => m,
                None => CLIMATE_DEFAULT_MAX_ITEMS,
            }),
    {
        (
            match self.start_index {
                Some(s) => s,
                None => CLIMATE_DEFAULT_START_INDEX,
            },
            match self.max_items {
                Some(m) => m,
                None => CLIMATE_DEFAULT_MAX_ITEMS,
            },
        )
    }
}

/// An ASCII decimal digit.
pub open spec fn is_digit(c: char) -> bool {
    '0' <= c <= '9'
}

/// The value of a string of decimal digits.
pub open spec fn decimal_value(s: Seq<char>) -> nat
    decreases s.len(),
{
    if s.len() == 0 {
        0
    } else {
        decimal_value(s.drop_last()) * 10 + (s.last() as nat - '0' as nat) as nat
    }
}

/// The digits of an unsigned decimal: the text after an optional leading `+`.
pub open spec fn unsigned_digits(s: Seq<char>) -> Seq<char> {
    if s.len() > 0 && s[0] == '+' {
        s.drop_first()
    } else {
        s
    }
}

/// What parsing `s` as a `usize` gives: an optional `+`, then one or more decimal
/// digits whose value fits in `usize`.
pub open spec fn parsed_usize(s: Seq<char>) -> Option<usize> {
    let d = unsigned_digits(s);
    if d.len() > 0 && (forall|k: int| 0 <= k < d.len() ==> is_digit(#[trigger] d[k]))
        && decimal_value(d) <= usize::MAX {
        Some(decimal_value(d) as usize)
    } else {
        None
    }
}

proof fn lemma_decimal_monotone(s: Seq<char>, n: int)
    requires
        0 <= n <= s.len(),
        forall|k: int| 0 <= k < s.len() ==> is_digit(#[trigger] s[k]),
    ensures
        decimal_value(s.subrange(0, n)) <= decimal_value(s),
    decreases s.len() - n,
{
    if n < s.len() {
        lemma_decimal_monotone(s, n + 1);
        let t = s.subrange(0, n + 1);
        assert(t.drop_last() == s.subrange(0, n));
    } else {
        assert(s.subrange(0, n) == s);
    }
}

/// Parses `s` as an unsigned decimal integer, as `usize::from_str` does.
pub fn parse_usize(s: &str) -> (r: Option<usize>)
    ensures
        r == parsed_usize(s@),
{
    let cs = chars_of(s);
    let start: usize = if cs.len() > 0 && cs[0] == '+' { 1 } else { 0 };
    let ghost d = unsigned_digits(s@);
    assert(d == cs@.subrange(start as int, cs@.len() as int));
    if start >= cs.len() {
        return None;
    }
    let mut value: usize = 0;
    let mut i: usize = start;
    while i < cs.len()
        invariant
            start <= i <= cs@.len(),
            cs@ == s@,
            d == unsigned_digits(s@),
            d == cs@.subrange(start as int, cs@.len() as int),
            forall|k: int| 0 <= k < i - start ==> is_digit(#[trigger] d[k]),
            value == decimal_value(d.subrange(0, i - start)),
        decreases cs@.len() - i,
    {
        let c = cs[i];
        assert(d[i - start] == c);
        if !('0' <= c && c <= '9') {
            proof {
                assert(!is_digit(d[i - start]));
            }
            return None;
        }
        let digit = (c as u32 - '0' as u32) as usize;
        proof {
            let t = d.subrange(0, i - start + 1);
            assert(t.drop_last() == d.subrange(0, i - start));
            assert(t.last() == c);
        }
        if value > (usize::MAX - digit) / 10 {
            proof {
                assert(value * 10 + digit > usize::MAX) by (nonlinear_arith)
                    requires
                        value > (usize::MAX - digit) / 10,
                        digit <= 9,
                ;
                assert(decimal_value(d.subrange(0, i - start + 1)) == value * 10 + digit);
                if forall|k: int| 0 <= k < d.len() ==> is_digit(#[trigger] d[k]) {
                    lemma_decimal_monotone(d, i - start + 1);
                }
            }
            return None;
        }
        assert(value * 10 + digit <= usize::MAX) by (nonlinear_arith)
            requires
                value <= (usize::MAX - digit) / 10,
                digit <= 9,
        ;
        value = value * 10 + digit;
        i = i + 1;
    }
    assert(d.subrange(0, d.len() as int) == d);
    Some(value)
}

/// Whether a request line may use the interactive shorthand: only in interactive mode,
/// and never on a line that holds `{` or `}`.
pub open spec fn shorthand_allowed(s: Seq<char>, is_cli: bool) -> bool {
    is_cli && !s.contains('{') && !s.contains('}')
}

/// Whether `cs` holds `{` or `}`.
fn has_brace(cs: &Vec<char>) -> (r: bool)
    ensures
        r == (cs@.contains('{') || cs@.contains('}')),
{
    let mut i: usize = 0;
    while i < cs.len()
        invariant
            i <= cs@.len(),
            forall|k: int| 0 <= k < i ==> cs@[k] != '{' && cs@[k] != '}',
        decreases cs@.len() - i,
    {
        if cs[i] == '{' || cs[i] == '}' {
            proof {
                assert(cs@[i as int] == '{' ==> cs@.contains('{'));
                assert(cs@[i as int] == '}' ==> cs@.contains('}'));
            }
            return true;
        }
        i = i + 1;
    }
    false
}

/// Chooses the request that a line stands for, given what JSON decoding of the line
/// gave. The decoded request wins, and so does a decoding error where the shorthand is
/// not allowed. Otherwise a line that parses as an unsigned integer is a climate search
/// on that city id, and any other line is a name search for the line itself.
pub fn parse_request(req_str: &str, is_cli: bool, json: Result<CityRequest, String>) -> (r: Result<
    CityRequest,
    String,
>)
    ensures
        json is Ok || !shorthand_allowed(req_str@, is_cli) ==> r == json,
        !(json is Ok) && shorthand_allowed(req_str@, is_cli) && parsed_usize(req_str@) is Some
            ==> r == Ok::<CityRequest, String>(
            CityRequest::SearchClimate(
                ClimateSearchRequest {
                    city_id: parsed_usize(req_str@)->0,
                    start_index: None,
                    max_items: None,
                },
            ),
        ),
        !(json is Ok) && shorthand_allowed(req_str@, is_cli) && parsed_usize(req_str@) is None
            ==> (r matches Ok(CityRequest::SearchCity(q)) && q.query@ == req_str@
            && q.start_index is None && q.max_items is None),
{
    let simple_allowed = is_cli && !has_brace(&chars_of(req_str));
    if json.is_ok() || !simple_allowed {
        return json;
    }
    match parse_usize(req_str) {
        Some(id) => Ok(
            CityRequest::SearchClimate(
                ClimateSearchRequest { city_id: id, start_index: None, max_items: None },
            ),
        ),
        None => Ok(
            CityRequest::SearchCity(
                CitySearchRequest { query: req_str.to_owned(), start_index: None, max_items: None },
            ),
        ),
    }
}

} // verus!
