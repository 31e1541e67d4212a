//! Web addresses: the scheme of an address, and the addresses under which
//! payloads and compiled artifacts are published.

use vstd::prelude::*;
use vstd::string::StringExecFns;
use vstd::utf8::encode_utf8;
use crate::types::{lemma_views_push, views, Uuid};

verus! {

/// The scheme of the address that the text parses to, without the colon;
/// `None` where the text is no absolute address.
pub uninterp spec fn url_scheme(text: Seq<char>) -> Option<Seq<char>>;

/// The segments of the path of the address that the text parses to; `None`
/// where the text is no absolute address or the address cannot be a base.
pub uninterp spec fn url_path_segments(text: Seq<char>) -> Option<Seq<Seq<char>>>;

/// The address that the text parses to, with its path replaced by `path`;
/// `None` where the text is no absolute address.
pub uninterp spec fn url_with_path(text: Seq<char>, path: Seq<char>) -> Option<Seq<char>>;

/// The view of a text that may be missing.
pub open spec fn text_of(text: Option<String>) -> Option<Seq<char>> {
    match text {
        Some(t) => Some(t@),
        None => None,
    }
}

/// The lower-case hexadecimal digit of a value below sixteen.
pub open spec fn lower_hex(value: u128) -> char {
    if value < 10 {
        (('0' as u8) + value) as char
    } else {
        (('a' as u8) + value - 10) as char
    }
}

/// The upper-case hexadecimal digit of a value below sixteen.
pub open spec fn upper_hex(value: u8) -> char {
    if value < 10 {
        (('0' as u8) + value) as char
    } else {
        (('A' as u8) + value - 10) as char
    }
}

/// The identifier in hyphenated form: thirty-two lower-case hexadecimal
/// digits, most significant first, in groups of 8, 4, 4, 4 and 12.
pub open spec fn hyphenated(id: Uuid) -> Seq<char> {
    Seq::new(
        36,
        |i: int|
            if i == 8 || i == 13 || i == 18 || i == 23 {
                '-'
            } else {
                let digit: int = if i < 8 {
                    i
                } else if i < 13 {
                    i - 1
                } else if i < 18 {
                    i - 2
                } else if i < 23 {
                    i - 3
                } else {
                    i - 4
                };
                lower_hex((id >> ((4 * (31 - digit)) as u128)) & 0xf)
            },
    )
}

/// Whether the byte stands for itself in a percent-encoded text: a letter, a
/// digit, or one of `-`, `.`, `_`, `~`.
pub open spec fn unreserved(byte: u8) -> bool {
    ||| 0x30 <= byte <= 0x39
    ||| 0x41 <= byte <= 0x5a
    ||| 0x61 <= byte <= 0x7a
    ||| byte == 0x2d
    ||| byte == 0x2e
    ||| byte == 0x5f
    ||| byte == 0x7e
}

/// One byte, percent-encoded.
pub open spec fn percent_encoded_byte(byte: u8) -> Seq<char> {
    if unreserved(byte) {
        seq![byte as char]
    } else {
        seq!['%', upper_hex(byte >> 4), upper_hex(byte & 15)]
    }
}

/// The bytes, percent-encoded one by one.
pub open spec fn percent_encoded(bytes: Seq<u8>) -> Seq<char>
    decreases bytes.len(),
{
    if bytes.len() == 0 {
        Seq::empty()
    } else {
        percent_encoded(bytes.drop_last()) + percent_encoded_byte(bytes.last())
    }
}

/// The first `n` parts, joined by slashes.
pub open spec fn joined(parts: Seq<Seq<char>>, n: int) -> Seq<char>
    decreases n,
{
    if n <= 0 {
        Seq::empty()
    } else if n == 1 {
        parts[0]
    } else {
        joined(parts, n - 1) + "/"@ + parts[n - 1]
    }
}

/// Whether the text stands in the path directly behind the dot at position
/// `at`.
pub open spec fn follows_dot(path: Seq<char>, text: Seq<char>, at: int) -> bool {
    &&& 0 <= at
    &&& at + 1 + text.len() <= path.len()
    &&& path[at] == '.'
    &&& path.subrange(at + 1, at + 1 + text.len()) == text
}

/// What holds of the extension of a path on every platform: it holds no dot,
/// and it stands in the path directly behind a dot. A path without a dot has
/// no extension.
pub open spec fn extension_fits(path: Seq<char>, extension: Option<Seq<char>>) -> bool {
    match extension {
        Some(text) => !text.contains('.') && exists|at: int| follows_dot(path, text, at),
        None => true,
    }
}

/// The name under which a payload is published: the identifier in hyphenated
/// form, then a dot and the extension where there is one.
pub open spec fn payload_name(id: Uuid, extension: Option<Seq<char>>) -> Seq<char> {
    match extension {
        Some(e) => hyphenated(id) + "."@ + e,
        None => hyphenated(id),
    }
}

/// The address under `base` whose path is the path of `base` followed by the
/// directory and the name, both percent-encoded.
pub open spec fn address_under(base: Seq<char>, directory: Seq<char>, name: Seq<char>) -> Option<
    Seq<char>,
> {
    let parts = url_path_segments(base).unwrap().push(
        percent_encoded(encode_utf8(directory)),
    ).push(percent_encoded(encode_utf8(name)));
    url_with_path(base, joined(parts, parts.len() as int))
}

/// The address of a payload: under the base address, in `downloads`.
pub open spec fn download_address(base: Seq<char>, extension: Option<Seq<char>>, id: Uuid) -> Option<
    Seq<char>,
> {
    address_under(base, DOWNLOAD_FILE_PATH@, payload_name(id, extension))
}

/// The address of a compiled artifact: under the base address, in
/// `versions`, named by the identifier with the extension `json`.
pub open spec fn version_address(base: Seq<char>, id: Uuid) -> Option<Seq<char>> {
    address_under(base, VERSIONS_FILE_PATH@, hyphenated(id) + ".json"@)
}

/// The directory of the payloads below the base address.
pub const DOWNLOAD_FILE_PATH: &'static str = "downloads";

/// The directory of the compiled artifacts below the base address.
pub const VERSIONS_FILE_PATH: &'static str = "versions";

/// `url::Url::parse`, then `Url::scheme` of the address: the scheme in lower
/// case without the colon. The contract names the result; it claims no more
/// than that the same text gives the same scheme.
#[verifier::external_body]
pub(crate) fn scheme_of(text: &str) -> (r: Option<String>)
    ensures
        text_of(r) == url_scheme(text@),
{
    match url::Url::parse(text) {
        Ok(address) => Some(address.scheme().to_owned()),
        Err(_) => None,
    }
}

/// `url::Url::parse`, then `Url::path_segments` of the address: the parts of
/// its path between slashes, which the crate gives for every address that can
/// be a base. The contract names the result.
#[verifier::external_body]
fn segments_of(text: &str) -> (r: Option<Vec<String>>)
    ensures
        match r {
            Some(segments) => url_path_segments(text@) == Some(views(segments@)),
            None => url_path_segments(text@) is None,
        },
{
    match url::Url::parse(text) {
        Ok(address) => match address.path_segments() {
            Some(segments) => Some(segments.map(|s| s.to_owned()).collect()),
            None => None,
        },
        Err(_) => None,
    }
}

/// `url::Url::parse`, then `Url::set_path` on the address, then its
/// serialization. The contract names the result, and claims that there is one
/// wherever the text has path segments: both begin with the same parse.
#[verifier::external_body]
fn with_path(text: &str, path: &str) -> (r: Option<String>)
    ensures
        text_of(r) == url_with_path(text@, path@),
        url_path_segments(text@) is Some ==> r is Some,
{
    match url::Url::parse(text) {
        Ok(mut address) => {
            address.set_path(path);
            Some(String::from(address))
        },
        Err(_) => None,
    }
}

/// `urlencoding::encode`: every byte of the text's UTF-8 encoding stands for
/// itself if it is an ASCII letter, a digit or one of `-`, `.`, `_`, `~`, and
/// is otherwise written as `%` and two upper-case hexadecimal digits.
#[verifier::external_body]
fn encode(text: &str) -> (r: String)
    ensures
        r@ == percent_encoded(encode_utf8(text@)),
{
    urlencoding::encode(text).into_owned()
}

/// `uuid::Uuid::from_u128`, then the identifier's `Display`: the hyphenated
/// form in lower case.
#[verifier::external_body]
pub(crate) fn uuid_text(id: Uuid) -> (r: String)
    ensures
        r@ == hyphenated(id),
{
    uuid::Uuid::from_u128(id).to_string()
}

/// `std::path::Path::extension`: what follows the last dot of the file name,
/// where the file name has a dot that is not its first character. What the
/// file name of a path is depends on the platform, so the contract claims
/// what holds on each: a path without a dot has no extension, and an
/// extension holds no dot and stands in the path directly behind a dot.
#[verifier::external_body]
pub(crate) fn extension_of(path: &str) -> (r: Option<String>)
    ensures
        !path@.contains('.') ==> r is None,
        extension_fits(path@, text_of(r)),
{
    match std::path::Path::new(path).extension() {
        Some(extension) => match extension.to_str() {
            Some(text) => Some(text.to_owned()),
            None => None,
        },
        None => None,
    }
}

/// A base address: an absolute address with a path that others can be put
/// under.
pub struct BaseUrl {
    text: String,
    segments: Vec<String>,
}

impl View for BaseUrl {
    type V = Seq<char>;

    closed spec fn view(&self) -> Seq<char> {
        self.text@
    }
}

impl BaseUrl {
    #[verifier::type_invariant]
    spec fn well_formed(self) -> bool {
        url_path_segments(self.text@) == Some(views(self.segments@))
    }

    /// The base address that the text stands for, if it stands for one.
    pub fn parse(text: &str) -> (r: Option<BaseUrl>)
        ensures
            match r {
                Some(base) => base@ == text@ && url_path_segments(text@) is Some,
                None => url_path_segments(text@) is None,
            },
    {
        match segments_of(text) {
            Some(segments) => Some(BaseUrl { text: text.to_owned(), segments }),
            None => None,
        }
    }

    /// The text of the address.
    pub fn as_str(&self) -> (r: &str)
        ensures
            r@ == self@,
    {
        self.text.as_str()
    }
}

/// The parts joined by slashes.
fn join_segments(parts: &Vec<String>) -> (r: String)
    ensures
        r@ == joined(views(parts@), parts.len() as int),
{
    let mut out = String::new();
    let mut i: usize = 0;
    while i < parts.len()
        invariant
            i <= parts.len(),
            out@ == joined(views(parts@), i as int),
        decreases parts.len() - i,
    {
        if i > 0 {
            out.append("/");
        }
        out.append(parts[i].as_str());
        assert(views(parts@)[i as int] == parts[i as int]@);
        assert(out@ =~= joined(views(parts@), i + 1));
        i += 1;
    }
    out
}

/// The address under the base whose path is the base's path followed by the
/// directory and the name.
fn address_below(base_url: &BaseUrl, directory: &str, name: &str) -> (r: String)
    ensures
        Some(r@) == address_under(base_url@, directory@, name@),
{
    proof {
        use_type_invariant(base_url);
    }
    let mut parts = crate::types::clone_list(&base_url.segments);
    let encoded_directory = encode(directory);
    proof {
        lemma_views_push(parts@, encoded_directory);
    }
    parts.push(encoded_directory);
    let encoded_name = encode(name);
    proof {
        lemma_views_push(parts@, encoded_name);
    }
    parts.push(encoded_name);
    let path = join_segments(&parts);
    match with_path(base_url.text.as_str(), path.as_str()) {
        Some(address) => address,
        None => String::new(),
    }
}

/// The name of the file under which a payload is published.
pub fn payload_file_name(id: Uuid, extension: Option<&str>) -> (r: String)
    ensures
        r@ == payload_name(
            id,
            match extension {
                Some(e) => Some(e@),
                None => None,
            },
        ),
{
    let mut name = uuid_text(id);
    match extension {
        Some(e) => {
            name.append(".");
            name.append(e);
        },
        None => {},
    }
    name
}

/// The address of the payload `uuid` under the base address, given the
/// extension of its file.
pub fn download_url(base_url: &BaseUrl, extension: Option<&str>, uuid: Uuid) -> (r: String)
    ensures
        Some(r@) == download_address(
            base_url@,
            match extension {
                Some(e) => Some(e@),
                None => None,
            },
            uuid,
        ),
{
    let name = payload_file_name(uuid, extension);
    address_below(base_url, DOWNLOAD_FILE_PATH, name.as_str())
}

/// The address of the payload `uuid` under the base address: in `downloads`,
/// named by the identifier, with the extension of the file at `path`. Which
/// part of a path is its file name depends on the platform; the address is
/// the one that `download_address` gives for an extension that fits the path,
/// and for none where the path holds no dot.
pub fn generate_url(base_url: &BaseUrl, path: &str, uuid: Uuid) -> (r: String)
    ensures
        exists|extension: Option<Seq<char>>|
            extension_fits(path@, extension) && Some(r@) == #[trigger] download_address(
                base_url@,
                extension,
                uuid,
            ),
        !path@.contains('.') ==> Some(r@) == download_address(base_url@, None, uuid),
{
    let extension = extension_of(path);
    match extension {
        Some(e) => download_url(base_url, Some(e.as_str()), uuid),
        None => download_url(base_url, None, uuid),
    }
}

/// The address of the compiled artifact `id` under the base address: in
/// `versions`, named by the identifier, with the extension `json`.
pub fn generate_versions_url(base_url: &BaseUrl, id: Uuid) -> (r: String)
    ensures
        Some(r@) == version_address(base_url@, id),
{
    let mut name = uuid_text(id);
    name.append(".json");
    address_below(base_url, VERSIONS_FILE_PATH, name.as_str())
}

} // verus!
