//! HTTP headers: the ones that every request carries, and the ones of an
//! answer that say something about the file.

use reqwest::header::{HeaderMap, HeaderValue};
use vstd::prelude::*;

verus! {

/// `reqwest::header::HeaderMap`, a map from header names to values.
#[verifier::external_type_specification]
#[verifier::external_body]
#[verifier::reject_recursive_types(T)]
pub struct ExHeaderMap<T>(HeaderMap<T>);

/// `reqwest::header::HeaderValue`, the bytes of a header's value.
#[verifier::external_type_specification]
#[verifier::external_body]
pub struct ExHeaderValue(HeaderValue);

/// What a header map holds: for each name, in small letters, the bytes of each
/// of its values, in the order in which they were added.
pub uninterp spec fn header_contents(headers: HeaderMap<HeaderValue>) -> Map<
    Seq<char>,
    Seq<Seq<u8>>,
>;

/// `c`, or the small letter of an ASCII capital.
pub open spec fn small_letter(c: char) -> char {
    if 'A' <= c && c <= 'Z' {
        (c as int + 32) as char
    } else {
        c
    }
}

pub open spec fn in_small_letters(s: Seq<char>) -> Seq<char> {
    Seq::new(s.len(), |i: int| small_letter(s[i]))
}

/// Letters, digits and hyphens, and no more of them than 64.
pub open spec fn is_header_name(s: Seq<char>) -> bool {
    &&& 0 < s.len() <= 64
    &&& forall|i: int|
        0 <= i < s.len() ==> {
            let c = #[trigger] s[i];
            ('a' <= c && c <= 'z') || ('A' <= c && c <= 'Z') || ('0' <= c && c <= '9') || c == '-'
        }
}

/// A byte that may stand in a header value that is read as text.
pub open spec fn is_visible(b: int) -> bool {
    32 <= b < 127 || b == 9
}

pub open spec fn is_visible_text(s: Seq<char>) -> bool {
    forall|i: int| 0 <= i < s.len() ==> is_visible(#[trigger] s[i] as int)
}

/// The bytes of a text that is ASCII throughout.
pub open spec fn ascii_bytes(s: Seq<char>) -> Seq<u8> {
    Seq::new(s.len(), |i: int| s[i] as u8)
}

/// The values of a header that has one value, and which it is.
pub open spec fn only_value(value: Seq<char>) -> Seq<Seq<u8>> {
    seq![ascii_bytes(value)]
}

/// The bytes of an optional value.
pub open spec fn bytes_view(bytes: Option<Vec<u8>>) -> Option<Seq<u8>> {
    match bytes {
        Some(b) => Some(b@),
        None => None,
    }
}

/// What a header map gives for a name: the first value, if there is one.
pub open spec fn header_in(contents: Map<Seq<char>, Seq<Seq<u8>>>, name: Seq<char>) -> Option<
    Seq<u8>,
> {
    let key = in_small_letters(name);
    if contents.contains_key(key) && contents[key].len() > 0 {
        Some(contents[key][0])
    } else {
        None
    }
}

/// The text that a header value spells, if all its bytes are visible ASCII.
pub open spec fn text_in(bytes: Seq<u8>) -> Option<Seq<char>> {
    if forall|i: int| 0 <= i < bytes.len() ==> is_visible(#[trigger] bytes[i] as int) {
        Some(Seq::new(bytes.len(), |i: int| bytes[i] as char))
    } else {
        None
    }
}

// ---------------------------------------------------------------------------
// The header map
// ---------------------------------------------------------------------------

/// `HeaderMap::new`: a map without a header.
#[verifier::external_body]
fn no_headers() -> (headers: HeaderMap<HeaderValue>)
    ensures
        header_contents(headers) == (Map::<Seq<char>, Seq<Seq<u8>>>::empty()),
{
    HeaderMap::new()
}

/// `HeaderMap::insert`, with a value made by `HeaderValue::from_static`: the
/// value takes the place of all that the map held under that name, in whatever
/// case the name is written. The map has room for far more than a thousand
/// names; it panics when it is full, and at a name or a value with characters
/// of another kind.
#[verifier::external_body]
fn insert_header(headers: &mut HeaderMap<HeaderValue>, name: &'static str, value: &'static str)
    requires
        is_header_name(name@),
        is_visible_text(value@),
        header_contents(*old(headers)).dom().finite(),
        header_contents(*old(headers)).dom().len() < 1000,
    ensures
        header_contents(*final(headers)) == header_contents(*old(headers)).insert(
            in_small_letters(name@),
            only_value(value@),
        ),
{
    headers.insert(name, HeaderValue::from_static(value));
}

/// `HeaderMap::get`: the value under a name, in whatever case the name is
/// written, or the first one where there are several.
#[verifier::external_body]
fn find_header(headers: &HeaderMap<HeaderValue>, name: &str) -> (value: Option<Vec<u8>>)
    requires
        is_header_name(name@),
    ensures
        bytes_view(value) == header_in(header_contents(*headers), name@),
{
    headers.get(name).map(|value| value.as_bytes().to_vec())
}

/// `HeaderMap::clone`: a map with the same names and values.
#[verifier::external_body]
pub(crate) fn copy_headers(headers: &HeaderMap<HeaderValue>) -> (copy: HeaderMap<HeaderValue>)
    ensures
        header_contents(copy) == header_contents(*headers),
{
    headers.clone()
}

/// `HeaderValue::to_str`, on a value made by `HeaderValue::from_bytes`: the
/// bytes as text where all of them are visible ASCII, and an error otherwise.
#[verifier::external_body]
fn header_text(bytes: &[u8]) -> (text: Option<String>)
    ensures
        crate::text::text_view(text) == text_in(bytes@),
{
    match HeaderValue::from_bytes(bytes) {
        Ok(value) => match value.to_str() {
            Ok(text) => Some(text.to_string()),
            Err(_) => None,
        },
        Err(_) => None,
    }
}

// ---------------------------------------------------------------------------
// The headers of every request
// ---------------------------------------------------------------------------

/// The headers by which every request passes for one of a browser.
pub open spec fn browser_headers() -> Map<Seq<char>, Seq<Seq<u8>>> {
    Map::empty().insert(
        "user-agent"@,
        only_value(
            "Mozilla/5.0 (Windows NT 10.0; Win64; x64) AppleWebKit/537.36 (KHTML, like Gecko) Chrome/121.0.0.0 Safari/537.36"@,
        ),
    ).insert(
        "sec-ch-ua"@,
        only_value(
            "\"Not A(Machine;Brand\";v=\"99\", \"Google Chrome\";v=\"121\", \"Chromium\";v=\"121\""@,
        ),
    ).insert(
        "sec-ch-ua-mobile"@,
        only_value(
            "?0"@,
        ),
    ).insert(
        "sec-ch-ua-platform"@,
        only_value(
            "\"Windows\""@,
        ),
    ).insert(
        "accept"@,
        only_value(
            "text/html,application/xhtml+xml,application/xml;q=0.9,image/webp,*/*;q=0.8"@,
        ),
    ).insert(
        "accept-language"@,
        only_value(
            "en-US,en;q=0.9"@,
        ),
    ).insert(
        "accept-encoding"@,
        only_value(
            "gzip, deflate, br"@,
        ),
    ).insert(
        "dnt"@,
        only_value(
            "1"@,
        ),
    ).insert(
        "connection"@,
        only_value(
            "keep-alive"@,
        ),
    ).insert(
        "upgrade-insecure-requests"@,
        only_value(
            "1"@,
        ),
    )
}

/// The headers by which every request passes for one of a browser.
pub fn default_headers() -> (headers: HeaderMap<HeaderValue>)
    ensures
        header_contents(headers) == browser_headers(),
{
    let mut headers: HeaderMap<HeaderValue> = no_headers();
    proof {
        reveal_strlit("User-Agent");
        reveal_strlit("user-agent");
        reveal_strlit(
            "Mozilla/5.0 (Windows NT 10.0; Win64; x64) AppleWebKit/537.36 (KHTML, like Gecko) Chrome/121.0.0.0 Safari/537.36",
        );
        assert(in_small_letters("User-Agent"@) =~= "user-agent"@);
    }
    insert_header(
        &mut headers,
        "User-Agent",
        "Mozilla/5.0 (Windows NT 10.0; Win64; x64) AppleWebKit/537.36 (KHTML, like Gecko) Chrome/121.0.0.0 Safari/537.36",
    );
    proof {
        reveal_strlit("sec-ch-ua");
        reveal_strlit(
            "\"Not A(Machine;Brand\";v=\"99\", \"Google Chrome\";v=\"121\", \"Chromium\";v=\"121\"",
        );
        assert(in_small_letters("sec-ch-ua"@) =~= "sec-ch-ua"@);
    }
    insert_header(
        &mut headers,
        "sec-ch-ua",
        "\"Not A(Machine;Brand\";v=\"99\", \"Google Chrome\";v=\"121\", \"Chromium\";v=\"121\"",
    );
    proof {
        reveal_strlit("sec-ch-ua-mobile");
        reveal_strlit(
            "?0",
        );
        assert(in_small_letters("sec-ch-ua-mobile"@) =~= "sec-ch-ua-mobile"@);
    }
    insert_header(
        &mut headers,
        "sec-ch-ua-mobile",
        "?0",
    );
    proof {
        reveal_strlit("sec-ch-ua-platform");
        reveal_strlit(
            "\"Windows\"",
        );
        assert(in_small_letters("sec-ch-ua-platform"@) =~= "sec-ch-ua-platform"@);
    }
    insert_header(
        &mut headers,
        "sec-ch-ua-platform",
        "\"Windows\"",
    );
    proof {
        reveal_strlit("Accept");
        reveal_strlit("accept");
        reveal_strlit(
            "text/html,application/xhtml+xml,application/xml;q=0.9,image/webp,*/*;q=0.8",
        );
        assert(in_small_letters("Accept"@) =~= "accept"@);
    }
    insert_header(
        &mut headers,
        "Accept",
        "text/html,application/xhtml+xml,application/xml;q=0.9,image/webp,*/*;q=0.8",
    );
    proof {
        reveal_strlit("Accept-Language");
        reveal_strlit("accept-language");
        reveal_strlit(
            "en-US,en;q=0.9",
        );
        assert(in_small_letters("Accept-Language"@) =~= "accept-language"@);
    }
    insert_header(
        &mut headers,
        "Accept-Language",
        "en-US,en;q=0.9",
    );
    proof {
        reveal_strlit("Accept-Encoding");
        reveal_strlit("accept-encoding");
        reveal_strlit(
            "gzip, deflate, br",
        );
        assert(in_small_letters("Accept-Encoding"@) =~= "accept-encoding"@);
    }
    insert_header(
        &mut headers,
        "Accept-Encoding",
        "gzip, deflate, br",
    );
    proof {
        reveal_strlit("DNT");
        reveal_strlit("dnt");
        reveal_strlit(
            "1",
        );
        assert(in_small_letters("DNT"@) =~= "dnt"@);
    }
    insert_header(
        &mut headers,
        "DNT",
        "1",
    );
    proof {
        reveal_strlit("Connection");
        reveal_strlit("connection");
        reveal_strlit(
            "keep-alive",
        );
        assert(in_small_letters("Connection"@) =~= "connection"@);
    }
    insert_header(
        &mut headers,
        "Connection",
        "keep-alive",
    );
    proof {
        reveal_strlit("Upgrade-Insecure-Requests");
        reveal_strlit("upgrade-insecure-requests");
        reveal_strlit(
            "1",
        );
        assert(in_small_letters("Upgrade-Insecure-Requests"@) =~= "upgrade-insecure-requests"@);
    }
    insert_header(
        &mut headers,
        "Upgrade-Insecure-Requests",
        "1",
    );
    headers
}

// ---------------------------------------------------------------------------
// The headers of an answer
// ---------------------------------------------------------------------------

/// The headers of an answer that say something about the file: the bytes of
/// each one that is there.
pub struct ReplyHeaders {
    pub content_range: Option<Vec<u8>>,
    pub content_length: Option<Vec<u8>>,
    pub accept_ranges: Option<Vec<u8>>,
    pub etag: Option<Vec<u8>>,
}

/// The bytes of the headers of an answer.
pub struct ReplyHeadersView {
    pub content_range: Option<Seq<u8>>,
    pub content_length: Option<Seq<u8>>,
    pub accept_ranges: Option<Seq<u8>>,
    pub etag: Option<Seq<u8>>,
}

impl View for ReplyHeaders {
    type V = ReplyHeadersView;

    open spec fn view(&self) -> ReplyHeadersView {
        ReplyHeadersView {
            content_range: bytes_view(self.content_range),
            content_length: bytes_view(self.content_length),
            accept_ranges: bytes_view(self.accept_ranges),
            etag: bytes_view(self.etag),
        }
    }
}

/// What a header map says about the file.
pub open spec fn reply_headers_in(contents: Map<Seq<char>, Seq<Seq<u8>>>) -> ReplyHeadersView {
    ReplyHeadersView {
        content_range: header_in(contents, "content-range"@),
        content_length: header_in(contents, "content-length"@),
        accept_ranges: header_in(contents, "accept-ranges"@),
        etag: header_in(contents, "etag"@),
    }
}

impl ReplyHeaders {
    /// Takes the headers that matter out of those of an answer.
    pub fn from_map(headers: &HeaderMap<HeaderValue>) -> (reply: Self)
        ensures
            reply@ == reply_headers_in(header_contents(*headers)),
    {
        proof {
            reveal_strlit("content-range");
            reveal_strlit("content-length");
            reveal_strlit("accept-ranges");
            reveal_strlit("etag");
        }
        ReplyHeaders {
            content_range: find_header(headers, "content-range"),
            content_length: find_header(headers, "content-length"),
            accept_ranges: find_header(headers, "accept-ranges"),
            etag: find_header(headers, "etag"),
        }
    }

    /// The size after the slash of `Content-Range`, as in `bytes 0-0/1234567`.
    pub fn size_of_range(&self) -> (size: Option<u64>)
        ensures
            size == range_size(self@),
    {
        match &self.content_range {
            Some(bytes) => match header_text(bytes.as_slice()) {
                Some(text) => match crate::text::text_second_field(text.as_str(), '/') {
                    Some(field) => crate::text::parse_u64(field.as_str()),
                    None => None,
                },
                None => None,
            },
            None => None,
        }
    }

    /// The size that `Content-Length` gives.
    pub fn length(&self) -> (size: Option<u64>)
        ensures
            size == stated_length(self@),
    {
        match &self.content_length {
            Some(bytes) => match header_text(bytes.as_slice()) {
                Some(text) => crate::text::parse_u64(text.as_str()),
                None => None,
            },
            None => None,
        }
    }

    /// The entity tag, where it is text.
    pub fn entity_tag(&self) -> (tag: Option<String>)
        ensures
            crate::text::text_view(tag) == stated_tag(self@),
    {
        match &self.etag {
            Some(bytes) => header_text(bytes.as_slice()),
            None => None,
        }
    }

    /// Whether `Accept-Ranges` says `bytes`, or `default` where it is absent.
    pub fn accepts_ranges(&self, default: bool) -> (accepts: bool)
        ensures
            accepts == ranges_accepted(self@, default),
    {
        match &self.accept_ranges {
            Some(bytes) => {
                proof {
                    reveal_strlit("bytes");
                }
                let accepts: bool = bytes.len() == 5 && bytes[0] == 98 && bytes[1] == 121
                    && bytes[2] == 116 && bytes[3] == 101 && bytes[4] == 115;
                let ghost wanted = ascii_bytes("bytes"@);
                assert(wanted.len() == 5);
                assert(wanted[0] == 98 && wanted[1] == 121 && wanted[2] == 116 && wanted[3] == 101
                    && wanted[4] == 115);
                assert(accepts ==> bytes@ =~= wanted);
                accepts
            },
            None => default,
        }
    }
}

pub open spec fn range_size(headers: ReplyHeadersView) -> Option<u64> {
    match headers.content_range {
        Some(bytes) => match text_in(bytes) {
            Some(text) => match crate::text::second_field(text, '/') {
                Some(field) => crate::text::number_in(field),
                None => None,
            },
            None => None,
        },
        None => None,
    }
}

pub open spec fn stated_length(headers: ReplyHeadersView) -> Option<u64> {
    match headers.content_length {
        Some(bytes) => match text_in(bytes) {
            Some(text) => crate::text::number_in(text),
            None => None,
        },
        None => None,
    }
}

pub open spec fn stated_tag(headers: ReplyHeadersView) -> Option<Seq<char>> {
    match headers.etag {
        Some(bytes) => text_in(bytes),
        None => None,
    }
}

pub open spec fn ranges_accepted(headers: ReplyHeadersView, default: bool) -> bool {
    match headers.accept_ranges {
        Some(bytes) => bytes == ascii_bytes("bytes"@),
        None => default,
    }
}

// ---------------------------------------------------------------------------
// Laws
// ---------------------------------------------------------------------------

proof fn lemma_visible_text_is_read(s: Seq<char>)
    requires
        is_visible_text(s),
    ensures
        text_in(ascii_bytes(s)) == Some(s),
{
    let bytes = ascii_bytes(s);
    assert forall|i: int| 0 <= i < bytes.len() implies is_visible(#[trigger] bytes[i] as int) by {
        assert(is_visible(s[i] as int));
    }
    assert forall|i: int| 0 <= i < bytes.len() implies bytes[i] as char == s[i] by {
        assert(is_visible(s[i] as int));
    }
    assert(text_in(bytes)->0 =~= s);
}

/// A size that a server states in digits is read as it is, be it the whole of
/// `Content-Length` or what follows the one slash of `Content-Range`.
pub proof fn stated_sizes_are_read(headers: ReplyHeadersView, size: u64, range: Seq<char>)
    requires
        is_visible_text(range),
        !range.contains('/'),
    ensures
        headers.content_length == Some(ascii_bytes(crate::text::decimal(size as nat)))
            ==> stated_length(headers) == Some(size),
        headers.content_range == Some(
            ascii_bytes(range + seq!['/'] + crate::text::decimal(size as nat)),
        ) ==> range_size(headers) == Some(size),
{
    let digits = crate::text::decimal(size as nat);
    crate::text::decimal_denotes(size as nat);
    crate::text::decimal_is_read_back(size);
    assert forall|i: int| 0 <= i < digits.len() implies is_visible(#[trigger] digits[i] as int) by {
        assert(crate::text::is_digit(digits[i]));
    }
    lemma_visible_text_is_read(digits);
    let s = range + seq!['/'] + digits;
    let k = range.len() as int;
    assert forall|i: int| 0 <= i < s.len() implies is_visible(#[trigger] s[i] as int) by {
        if i < k {
            assert(is_visible(range[i] as int));
        } else if i > k {
            assert(s[i] == digits[i - k - 1]);
        }
    }
    lemma_visible_text_is_read(s);
    assert(s[k] == '/');
    assert forall|i: int| 0 <= i < k implies s[i] != '/' by {
        assert(s[i] == range[i]);
        assert(range.contains(range[i]));
    }
    crate::text::lemma_find_from(s, '/', 0);
    assert(crate::text::find_from(s, '/', 0) == k);
    assert forall|i: int| k < i < s.len() implies s[i] != '/' by {
        assert(s[i] == digits[i - k - 1]);
        assert(crate::text::is_digit(digits[i - k - 1]));
    }
    crate::text::lemma_find_from(s, '/', k + 1);
    assert(crate::text::find_from(s, '/', k + 1) == s.len());
    assert(s.subrange(k + 1, s.len() as int) =~= digits);
}

/// Whether the value of a header is there and spells a text: byte for character,
/// each of them a printing ASCII character or a tab.
pub open spec fn spells(value: Option<Seq<u8>>, text: Seq<char>) -> bool {
    &&& value matches Some(bytes)
    &&& bytes.len() == text.len()
    &&& forall|i: int|
        0 <= i < text.len() ==> bytes[i] as int == #[trigger] text[i] as int && (' ' <= text[i]
            && text[i] <= '~' || text[i] == '\t')
}

proof fn lemma_spelled_text_is_read(value: Option<Seq<u8>>, text: Seq<char>)
    requires
        spells(value, text),
    ensures
        text_in(value->0) == Some(text),
{
    let bytes = value->0;
    assert forall|i: int| 0 <= i < bytes.len() implies is_visible(#[trigger] bytes[i] as int) by {
        assert(bytes[i] as int == text[i] as int);
    }
    assert forall|i: int| 0 <= i < bytes.len() implies bytes[i] as char == text[i] by {
        assert(bytes[i] as int == text[i] as int);
    }
    assert(text_in(bytes)->0 =~= text);
}

/// A value is text if and only if all of its bytes are printing ASCII characters
/// or tabs, and it is then the text that they spell.
pub proof fn values_are_the_text_they_spell(bytes: Seq<u8>)
    ensures
        match text_in(bytes) {
            Some(text) => spells(Some(bytes), text),
            None => exists|i: int|
                0 <= i < bytes.len() && !(32 <= #[trigger] bytes[i] <= 126) && bytes[i] != 9,
        },
{
    if let Some(text) = text_in(bytes) {
        assert forall|i: int| 0 <= i < text.len() implies bytes[i] as int
            == #[trigger] text[i] as int && (' ' <= text[i] && text[i] <= '~' || text[i]
            == '\t') by {
            assert(is_visible(bytes[i] as int));
        }
    } else {
        let i = choose|i: int| 0 <= i < bytes.len() && !is_visible(#[trigger] bytes[i] as int);
        assert(!(32 <= bytes[i] <= 126) && bytes[i] != 9);
    }
}

/// The name of a header is looked up in small letters: each capital of ASCII is
/// taken for its small letter, and every other character for itself.
pub proof fn names_are_looked_up_in_small_letters(name: Seq<char>, i: int)
    requires
        0 <= i < name.len(),
    ensures
        in_small_letters(name).len() == name.len(),
        'A' <= name[i] && name[i] <= 'Z' ==> in_small_letters(name)[i] as int - name[i] as int
            == 'a' as int - 'A' as int,
        !('A' <= name[i] && name[i] <= 'Z') ==> in_small_letters(name)[i] == name[i],
{
}

/// Of the headers of an answer, the first value that each of the four names has
/// is kept, and nothing of the others.
pub proof fn the_first_value_of_each_name_is_kept(contents: Map<Seq<char>, Seq<Seq<u8>>>)
    requires
        forall|name: Seq<char>| #[trigger]
            contents.contains_key(name) ==> contents[name].len() > 0,
    ensures
        ({
            let kept = reply_headers_in(contents);
            &&& kept.content_range == if contents.contains_key("content-range"@) {
                Some(contents["content-range"@].first())
            } else {
                None
            }
            &&& kept.content_length == if contents.contains_key("content-length"@) {
                Some(contents["content-length"@].first())
            } else {
                None
            }
            &&& kept.accept_ranges == if contents.contains_key("accept-ranges"@) {
                Some(contents["accept-ranges"@].first())
            } else {
                None
            }
            &&& kept.etag == if contents.contains_key("etag"@) {
                Some(contents["etag"@].first())
            } else {
                None
            }
        }),
{
    reveal_strlit("content-range");
    reveal_strlit("content-length");
    reveal_strlit("accept-ranges");
    reveal_strlit("etag");
    assert(in_small_letters("content-range"@) =~= "content-range"@);
    assert(in_small_letters("content-length"@) =~= "content-length"@);
    assert(in_small_letters("accept-ranges"@) =~= "accept-ranges"@);
    assert(in_small_letters("etag"@) =~= "etag"@);
}

/// `Content-Length` gives the number that its text spells, and `ETag` its text.
/// A header that is absent, or is no text, gives nothing.
pub proof fn lengths_and_tags_are_read_as_they_are_spelled(
    headers: ReplyHeadersView,
    text: Seq<char>,
)
    ensures
        spells(headers.content_length, text) ==> stated_length(headers) == crate::text::number_in(
            text,
        ),
        spells(headers.etag, text) ==> stated_tag(headers) == Some(text),
        stated_length(headers) is Some ==> exists|spelled: Seq<char>|
            spells(headers.content_length, spelled),
        stated_tag(headers) is Some ==> exists|spelled: Seq<char>| spells(headers.etag, spelled),
{
    if spells(headers.content_length, text) {
        lemma_spelled_text_is_read(headers.content_length, text);
    }
    if spells(headers.etag, text) {
        lemma_spelled_text_is_read(headers.etag, text);
    }
    if stated_length(headers) is Some {
        values_are_the_text_they_spell(headers.content_length->0);
        assert(spells(headers.content_length, text_in(headers.content_length->0)->0));
    }
    if stated_tag(headers) is Some {
        values_are_the_text_they_spell(headers.etag->0);
        assert(spells(headers.etag, text_in(headers.etag->0)->0));
    }
}

/// `Content-Range` gives the number that stands behind its slash, up to a second
/// one if there is one. One without a slash, one that is absent and one that is
/// no text give nothing.
pub proof fn sizes_stand_behind_the_slash(
    headers: ReplyHeadersView,
    range: Seq<char>,
    size: Seq<char>,
    rest: Seq<char>,
)
    requires
        !range.contains('/'),
        !size.contains('/'),
    ensures
        spells(headers.content_range, range + seq!['/'] + size) ==> range_size(headers)
            == crate::text::number_in(size),
        spells(headers.content_range, range + seq!['/'] + size + seq!['/'] + rest) ==> range_size(
            headers,
        ) == crate::text::number_in(size),
        spells(headers.content_range, range) ==> range_size(headers) is None,
        range_size(headers) is Some ==> exists|spelled: Seq<char>|
            spells(headers.content_range, spelled),
{
    crate::text::texts_split_where_they_were_joined(range, size, size, rest, '/');
    let value = headers.content_range;
    let one = range + seq!['/'] + size;
    let two = range + seq!['/'] + size + seq!['/'] + rest;
    if spells(value, one) {
        lemma_spelled_text_is_read(value, one);
    }
    if spells(value, two) {
        lemma_spelled_text_is_read(value, two);
    }
    if spells(value, range) {
        lemma_spelled_text_is_read(value, range);
    }
    if range_size(headers) is Some {
        values_are_the_text_they_spell(value->0);
        assert(spells(value, text_in(value->0)->0));
    }
}

/// Ranges are accepted if and only if `Accept-Ranges` spells the word `bytes`;
/// where it is absent, it is as the caller presumes.
pub proof fn ranges_are_accepted_in_bytes(headers: ReplyHeadersView, presumed: bool)
    ensures
        headers.accept_ranges is Some ==> (ranges_accepted(headers, presumed) <==> spells(
            headers.accept_ranges,
            seq!['b', 'y', 't', 'e', 's'],
        )),
        headers.accept_ranges is None ==> ranges_accepted(headers, presumed) == presumed,
{
    reveal_strlit("bytes");
    let word = seq!['b', 'y', 't', 'e', 's'];
    assert("bytes"@ =~= word);
    if let Some(bytes) = headers.accept_ranges {
        let wanted = ascii_bytes(word);
        if spells(headers.accept_ranges, word) {
            assert forall|i: int| 0 <= i < 5 implies bytes[i] == wanted[i] by {
                assert(bytes[i] as int == word[i] as int);
            }
            assert(bytes =~= wanted);
        }
        if bytes == wanted {
            assert forall|i: int| 0 <= i < word.len() implies bytes[i] as int
                == #[trigger] word[i] as int && (' ' <= word[i] && word[i] <= '~' || word[i]
                == '\t') by {}
        }
    }
}

/// What is kept of the headers of an answer shows the bytes that it holds.
pub proof fn reply_headers_show_their_bytes(headers: ReplyHeaders)
    ensures
        headers.content_range matches Some(bytes) ==> headers@.content_range == Some(bytes@),
        headers.content_range is None ==> headers@.content_range is None,
        headers.content_length matches Some(bytes) ==> headers@.content_length == Some(bytes@),
        headers.content_length is None ==> headers@.content_length is None,
        headers.accept_ranges matches Some(bytes) ==> headers@.accept_ranges == Some(bytes@),
        headers.accept_ranges is None ==> headers@.accept_ranges is None,
        headers.etag matches Some(bytes) ==> headers@.etag == Some(bytes@),
        headers.etag is None ==> headers@.etag is None,
{
}

} // verus!
