//! Asking the listing service for a page, and judging its answer.
use crate::error::Error;
use vstd::prelude::*;
use vstd::string::StringExecFns;

verus! {

/// The address of the listing service.
pub const SCORESABER_API_URL: &'static str = "https://scoresaber.com/api.php";

/// The number of songs that is asked for with each page.
pub const PAGE_LIMIT: usize = 1000;

/// The character of a decimal digit.
pub open spec fn digit(value: nat) -> char {
    if value == 0 {
        '0'
    } else if value == 1 {
        '1'
    } else if value == 2 {
        '2'
    } else if value == 3 {
        '3'
    } else if value == 4 {
        '4'
    } else if value == 5 {
        '5'
    } else if value == 6 {
        '6'
    } else if value == 7 {
        '7'
    } else if value == 8 {
        '8'
    } else {
        '9'
    }
}

/// A number written in decimal digits, without leading zeros.
pub open spec fn decimal(number: nat) -> Seq<char>
    decreases number,
{
    if number < 10 {
        seq![digit(number)]
    } else {
        decimal(number / 10).push(digit(number % 10))
    }
}

/// The query of the request for page `page`: the ranked songs, in the order in
/// which they were ranked, `PAGE_LIMIT` of them to a page.
pub open spec fn page_query_of(page: u64) -> Seq<(Seq<char>, Seq<char>)> {
    seq![
        ("function"@, "get-leaderboards"@),
        ("ranked"@, "1"@),
        ("cat"@, "1"@),
        ("limit"@, decimal(PAGE_LIMIT as nat)),
        ("page"@, decimal(page as nat)),
    ]
}

/// The names and values of `pairs` as texts.
pub open spec fn texts_of(pairs: Seq<(String, String)>) -> Seq<(Seq<char>, Seq<char>)> {
    Seq::new(pairs.len(), |i: int| (pairs[i].0@, pairs[i].1@))
}

/// Whether an address and a query are short enough for a URL to be made of
/// them, which can hold four thousand million bytes and no more.
spec fn fits_url(base: Seq<char>, query: Seq<(Seq<char>, Seq<char>)>) -> bool {
    &&& base.len() <= 1024
    &&& query.len() <= 64
    &&& forall|i: int|
        0 <= i < query.len() ==> (#[trigger] query[i]).0.len() <= 1024 && query[i].1.len() <= 1024
}

/// The URL that `url` makes of an absolute address and the pairs of a query
/// added to it, or `None` where the address is not an absolute URL.
pub uninterp spec fn url_with_params(base: Seq<char>, query: Seq<(Seq<char>, Seq<char>)>) -> Option<
    Seq<char>,
>;

/// `reqwest::Url::parse_with_params`, which is `url`'s: parses `base` and
/// appends each pair of `query` to its query string, form-encoded.
///
/// The contract is believed, not proved. It names the outcome and claims no
/// more of it than that it is a function of the address and the pairs: the
/// text of the URL where `base` parses, and else the error that the parser
/// gave. The call is kept to short addresses and queries, far from the length
/// at which `url` gives up with a panic.
#[verifier::external_body]
fn parse_with_params(base: &str, query: &Vec<(String, String)>) -> (parsed: Result<
    String,
    url::ParseError,
>)
    requires
        fits_url(base@, texts_of(query@)),
    ensures
        parsed is Ok ==> url_with_params(base@, texts_of(query@)) == Some(parsed->Ok_0@),
        parsed is Err ==> url_with_params(base@, texts_of(query@)) is None,
{
    reqwest::Url::parse_with_params(base, query).map(String::from)
}

/// The text of one decimal digit.
fn digit_text(value: u64) -> (text: &'static str)
    requires
        value < 10,
    ensures
        text@ == seq![digit(value as nat)],
{
    proof {
        reveal_strlit("0");
        reveal_strlit("1");
        reveal_strlit("2");
        reveal_strlit("3");
        reveal_strlit("4");
        reveal_strlit("5");
        reveal_strlit("6");
        reveal_strlit("7");
        reveal_strlit("8");
        reveal_strlit("9");
    }
    let text = if value == 0 {
        "0"
    } else if value == 1 {
        "1"
    } else if value == 2 {
        "2"
    } else if value == 3 {
        "3"
    } else if value == 4 {
        "4"
    } else if value == 5 {
        "5"
    } else if value == 6 {
        "6"
    } else if value == 7 {
        "7"
    } else if value == 8 {
        "8"
    } else {
        "9"
    };
    assert(text@ =~= seq![digit(value as nat)]);
    text
}

/// Writes a number in decimal digits: see [`decimal`].
pub fn decimal_text(number: u64) -> (text: String)
    ensures
        text@ == decimal(number as nat),
    decreases number,
{
    let last = digit_text(number % 10);
    if number < 10 {
        last.to_owned()
    } else {
        let mut text = decimal_text(number / 10);
        text.append(last);
        assert(text@ =~= decimal((number / 10) as nat).push(digit((number % 10) as nat)));
        text
    }
}

/// Ten to the power of `digits`.
spec fn ten_to(digits: nat) -> nat
    decreases digits,
{
    if digits == 0 {
        1
    } else {
        10 * ten_to((digits - 1) as nat)
    }
}

/// A number below ten to the power of `digits` is written in at most that many
/// digits, and in one at least.
proof fn lemma_decimal_length(number: nat, digits: nat)
    requires
        digits >= 1,
        number < ten_to(digits),
    ensures
        1 <= decimal(number).len() <= digits,
    decreases digits,
{
    if number >= 10 {
        if digits == 1 {
            assert(ten_to(1) == 10) by {
                reveal_with_fuel(ten_to, 2);
            }
        } else {
            lemma_decimal_length(number / 10, (digits - 1) as nat);
        }
    }
}

/// The pairs of the query for page `page`: see [`page_query_of`].
pub fn page_query(page: u64) -> (query: Vec<(String, String)>)
    ensures
        texts_of(query@) == page_query_of(page),
{
    let mut query: Vec<(String, String)> = Vec::new();
    query.push(("function".to_owned(), "get-leaderboards".to_owned()));
    query.push(("ranked".to_owned(), "1".to_owned()));
    query.push(("cat".to_owned(), "1".to_owned()));
    query.push(("limit".to_owned(), decimal_text(PAGE_LIMIT as u64)));
    query.push(("page".to_owned(), decimal_text(page)));
    assert(texts_of(query@) =~= page_query_of(page));
    query
}

/// What the parser's outcome means for the request: its URL, or the failure to
/// form one.
pub fn url_or_error(parsed: Result<String, url::ParseError>) -> (url: Result<String, Error>)
    ensures
        match parsed {
            Ok(text) => url == Ok::<String, Error>(text),
            Err(cause) => url == Err::<String, Error>(Error::Url(cause)),
        },
{
    match parsed {
        Ok(text) => Ok(text),
        Err(cause) => Err(Error::Url(cause)),
    }
}

/// The query for every page is short enough for a URL.
proof fn lemma_page_query_fits(page: u64)
    ensures
        fits_url(SCORESABER_API_URL@, page_query_of(page)),
{
    reveal_strlit("https://scoresaber.com/api.php");
    reveal_strlit("function");
    reveal_strlit("get-leaderboards");
    reveal_strlit("ranked");
    reveal_strlit("cat");
    reveal_strlit("limit");
    reveal_strlit("page");
    reveal_strlit("1");
    assert(ten_to(20) == 100000000000000000000) by {
        reveal_with_fuel(ten_to, 21);
    }
    lemma_decimal_length(PAGE_LIMIT as nat, 20);
    lemma_decimal_length(page as nat, 20);
}

/// The URL of the request for page `page` of the listing.
///
/// It is the address of the service with the pairs of [`page_query_of`] added
/// as its query. Should the address not parse, the failure is the parser's.
pub fn ranked_songs_url(page: u64) -> (url: Result<String, Error>)
    ensures
        match url_with_params(SCORESABER_API_URL@, page_query_of(page)) {
            Some(text) => url is Ok && url->Ok_0@ == text,
            None => url is Err && url->Err_0 is Url,
        },
{
    let query = page_query(page);
    proof {
        lemma_page_query_fits(page);
    }
    url_or_error(parse_with_params(SCORESABER_API_URL, &query))
}

/// Judges the status code of an answer: the codes from 200 to 299 stand for
/// success, and every other code is a failure of the transport.
pub fn check_status(code: u16) -> (verdict: Result<(), Error>)
    ensures
        200 <= code < 300 ==> verdict is Ok,
        !(200 <= code < 300) ==> verdict == Err::<(), Error>(Error::Status(code)),
{
    if 200 <= code && code < 300 {
        Ok(())
    } else {
        Err(Error::Status(code))
    }
}

} // verus!
