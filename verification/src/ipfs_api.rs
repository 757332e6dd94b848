//! The address of the store's API: where its description is found, how a
//! multiaddr becomes the base URL of the API, and the URL of a request.

use vstd::prelude::*;
use vstd::string::StrSliceExecFns;
use vstd::string::StringExecFns;
use vstd::utf8::encode_utf8;
use crate::error::{ApiError, Error};
use crate::text::{chars_of, is_word_at, run_end, scan, trim_bounds, trimmed, CharClass};

verus! {

/// The name of the environment variable that names the store's data
/// directory.
pub const IPFS_DIR_ENV_VAR: &'static str = "IPFS_PATH";

/// The name of the store's data directory within the home directory.
pub const IPFS_DATA_FOLDER_NAME: &'static str = ".ipfs";

/// The name of the file, within the data directory, that holds the address
/// of the API.
pub const API_FILE_NAME: &'static str = "api";

/// Where the store's data directory is.
#[derive(Clone, Debug, PartialEq, Eq)]
pub enum DataDir {
    /// At this path, which the environment names.
    Configured(String),
    /// In the folder `.ipfs` of this home directory.
    UnderHome(String),
}

/// Finds the store's data directory: the value of the environment variable
/// where it is set and not empty, else the folder in the home directory. It
/// is an error to have neither.
pub fn ipfs_data_dir_path(configured: Option<String>, home: Option<String>) -> (r: Result<
    DataDir,
    Error,
>)
    ensures
        match r {
            Ok(DataDir::Configured(path)) => configured == Some(path) && path@.len() > 0,
            Ok(DataDir::UnderHome(dir)) => home == Some(dir) && !(configured matches Some(path)
                && path@.len() > 0),
            Err(e) => e == Error::ApiError(ApiError::NoHomeDirectory) && home is None && !(
            configured matches Some(path) && path@.len() > 0),
        },
{
    match configured {
        Some(path) => {
            if !path.as_str().is_empty() {
                return Ok(DataDir::Configured(path));
            }
        },
        None => {},
    }
    match home {
        Some(dir) => Ok(DataDir::UnderHome(dir)),
        None => Err(Error::ApiError(ApiError::NoHomeDirectory)),
    }
}

/// The positions of the three slashes that part a multiaddr, after its
/// first character, into four pieces; `None` where there are fewer or more.
pub open spec fn multiaddr_slashes(addr: Seq<char>) -> Option<(int, int, int)> {
    let a = run_end(addr, 1, CharClass::Except('/'));
    let b = run_end(addr, a + 1, CharClass::Except('/'));
    let c = run_end(addr, b + 1, CharClass::Except('/'));
    let d = run_end(addr, c + 1, CharClass::Except('/'));
    if addr.len() >= 1 && a < addr.len() && b < addr.len() && c < addr.len() && d >= addr.len() {
        Some((a, b, c))
    } else {
        None
    }
}

/// The base URL of the API at the multiaddr `addr`. After its first
/// character the address holds four pieces parted by slashes: `ip4`, the
/// host, `tcp` and the port. The URL is `http://`, the host, `:` and the
/// port. Any other address gives `None`.
pub open spec fn api_url(addr: Seq<char>) -> Option<Seq<char>> {
    match multiaddr_slashes(addr) {
        None => None,
        Some((a, b, c)) => if addr.subrange(1, a) == "ip4"@ && addr.subrange(b + 1, c) == "tcp"@ {
            Some(
                "http://"@ + addr.subrange(a + 1, b) + ":"@ + addr.subrange(
                    c + 1,
                    addr.len() as int,
                ),
            )
        } else {
            None
        },
    }
}

/// The largest size of a request, as `request_size` counts it, for which a
/// URL is made.
pub const MAX_REQUEST_SIZE: usize = 0x1000_0000;

/// The URL that `url::Url::parse_with_params` makes of a base URL and the
/// names and values of query parameters, if it makes one.
pub uninterp spec fn url_with_params(
    base: Seq<char>,
    params: Seq<(Seq<char>, Seq<char>)>,
) -> Option<Seq<char>>;

/// The size of query parameters: the bytes of each name and value, and two
/// more for each parameter.
pub open spec fn params_size(params: Seq<(Seq<char>, Seq<char>)>) -> int
    decreases params.len(),
{
    if params.len() == 0 {
        0
    } else {
        params_size(params.drop_last()) + encode_utf8(params.last().0).len() + encode_utf8(
            params.last().1,
        ).len() + 2
    }
}

/// The size of a request: the bytes of its base and the size of its
/// parameters.
pub open spec fn request_size(base: Seq<char>, params: Seq<(Seq<char>, Seq<char>)>) -> int {
    encode_utf8(base).len() + params_size(params)
}

/// The text that the URL of a request is made of: the base URL of the API,
/// `/api/v0/`, and the command.
pub open spec fn request_base(url: Seq<char>, command: Seq<char>) -> Seq<char> {
    url + "/api/v0/"@ + command
}

/// The URL of the request for `command` with `params` at the API with base
/// URL `url`; none for a request above the largest size.
pub open spec fn request_url(
    url: Seq<char>,
    command: Seq<char>,
    params: Seq<(Seq<char>, Seq<char>)>,
) -> Option<Seq<char>> {
    if request_size(request_base(url, command), params) <= MAX_REQUEST_SIZE {
        url_with_params(request_base(url, command), params)
    } else {
        None
    }
}

/// The first parameters of a request are no larger than all of them.
proof fn lemma_params_size_take(params: Seq<(Seq<char>, Seq<char>)>, count: int)
    requires
        0 <= count <= params.len(),
    ensures
        0 <= params_size(params.take(count)) <= params_size(params),
    decreases params.len(),
{
    if count == params.len() {
        assert(params.take(count) =~= params);
        if params.len() > 0 {
            lemma_params_size_take(params.drop_last(), count - 1);
        }
    } else {
        assert(params.take(count) =~= params.drop_last().take(count));
        lemma_params_size_take(params.drop_last(), count);
    }
}

/// Calls `url::Url::parse_with_params`, which parses `base` as an absolute
/// URL and appends each parameter to its query, and hands out the text of
/// the URL; `None` where `base` is refused. The result depends on the
/// arguments alone. Requests above the largest size are left out: where
/// the text of the URL passes four gibibytes the call panics.
#[verifier::external_body]
fn parse_with_params(base: &str, params: &Vec<(String, String)>) -> (r: Option<String>)
    requires
        request_size(base@, params.deep_view()) <= MAX_REQUEST_SIZE,
    ensures
        match r {
            Some(text) => url_with_params(base@, params.deep_view()) == Some(text@),
            None => url_with_params(base@, params.deep_view()) is None,
        },
{
    match url::Url::parse_with_params(base, params) {
        Ok(url) => Some(url.into()),
        Err(_) => None,
    }
}

/// Whether a request is within the largest size.
pub fn within_request_size(base: &str, params: &Vec<(String, String)>) -> (b: bool)
    ensures
        b == (request_size(base@, params.deep_view()) <= MAX_REQUEST_SIZE),
{
    let ghost all = params.deep_view();
    let mut total: usize = base.as_bytes().len();
    if total > MAX_REQUEST_SIZE {
        proof {
            lemma_params_size_take(all, 0);
        }
        return false;
    }
    let mut i: usize = 0;
    assert(all.take(0) =~= Seq::empty());
    while i < params.len()
        invariant
            i <= params.len(),
            all == params.deep_view(),
            total <= MAX_REQUEST_SIZE,
            total == encode_utf8(base@).len() + params_size(all.take(i as int)),
        decreases params.len() - i,
    {
        let name = params[i].0.as_str().as_bytes().len();
        let value = params[i].1.as_str().as_bytes().len();
        proof {
            assert(all.take(i + 1).drop_last() =~= all.take(i as int));
            assert(all.take(i + 1).last() == all[i as int]);
            assert(all[i as int] == (params[i as int].0@, params[i as int].1@));
            lemma_params_size_take(all, i + 1);
        }
        if name > MAX_REQUEST_SIZE - total {
            return false;
        }
        total = total + name;
        if value > MAX_REQUEST_SIZE - total {
            return false;
        }
        total = total + value;
        if 2 > MAX_REQUEST_SIZE - total {
            return false;
        }
        total = total + 2;
        i = i + 1;
    }
    assert(all.take(i as int) =~= all);
    true
}

/// The store's API, known by its base URL.
#[derive(Clone, Debug, PartialEq, Eq)]
pub struct Shell {
    url: String,
}

impl View for Shell {
    type V = Seq<char>;

    closed spec fn view(&self) -> Seq<char> {
        self.url@
    }
}

impl Shell {
    /// The API at the multiaddr `addr`, which must be of the form
    /// `/ip4/<ip>/tcp/<port>`.
    pub fn new(addr: &str) -> (r: Result<Shell, Error>)
        ensures
            match r {
                Ok(shell) => api_url(addr@) == Some(shell@),
                Err(e) => api_url(addr@) is None && e == Error::ApiError(
                    ApiError::MalformedAddress,
                ),
            },
    {
        let chars = chars_of(addr);
        let len = chars.len();
        let malformed = Err(Error::ApiError(ApiError::MalformedAddress));
        assert(chars@.take(len as int) =~= addr@);
        if len < 1 {
            return malformed;
        }
        let a = scan(&chars, 1, len, CharClass::Except('/'));
        if a >= len {
            return malformed;
        }
        let b = scan(&chars, a + 1, len, CharClass::Except('/'));
        if b >= len {
            return malformed;
        }
        let c = scan(&chars, b + 1, len, CharClass::Except('/'));
        if c >= len {
            return malformed;
        }
        let d = scan(&chars, c + 1, len, CharClass::Except('/'));
        if d < len {
            return malformed;
        }
        if !is_word_at(&chars, 1, a, "ip4") || !is_word_at(&chars, b + 1, c, "tcp") {
            return malformed;
        }
        let mut url = String::from_str("http://");
        url.append(addr.substring_char(a + 1, b));
        url.append(":");
        url.append(addr.substring_char(c + 1, len));
        Ok(Shell { url })
    }

    /// The API at the address that the API file holds: the contents of the
    /// file without the white space at their ends.
    pub fn from_api_file(contents: &str) -> (r: Result<Shell, Error>)
        ensures
            match r {
                Ok(shell) => api_url(trimmed(contents@)) == Some(shell@),
                Err(e) => api_url(trimmed(contents@)) is None && e == Error::ApiError(
                    ApiError::MalformedAddress,
                ),
            },
    {
        let chars = chars_of(contents);
        let (start, end) = trim_bounds(&chars);
        Shell::new(contents.substring_char(start, end))
    }

    /// The URL of the request for `command` with the query parameters
    /// `params`, each a name and its value. It is an error where the base
    /// URL, `/api/v0/` and the command make no absolute URL, and where the
    /// request is above the largest size.
    pub fn make_request_url(&self, command: &str, params: &Vec<(String, String)>) -> (r: Result<
        String,
        Error,
    >)
        ensures
            match r {
                Ok(text) => request_url(self@, command@, params.deep_view()) == Some(text@),
                Err(e) => request_url(self@, command@, params.deep_view()) is None && e
                    == Error::ApiError(ApiError::InvalidUrl),
            },
    {
        let mut base = String::from_str(self.url.as_str());
        base.append("/api/v0/");
        base.append(command);
        if !within_request_size(base.as_str(), params) {
            return Err(Error::ApiError(ApiError::InvalidUrl));
        }
        match parse_with_params(base.as_str(), params) {
            Some(text) => Ok(text),
            None => Err(Error::ApiError(ApiError::InvalidUrl)),
        }
    }

    /// The base URL of the API.
    pub fn url(&self) -> (url: &str)
        ensures
            url@ == self@,
    {
        self.url.as_str()
    }
}

} // verus!
