//! The client side: how a connection is authenticated and framed, and the
//! handshake headers that follow from it.
use vstd::prelude::*;
use vstd::utf8::encode_utf8;
use base64::Engine;

verus! {

/// The framing a client uses for the messages it sends.
#[derive(Debug, Clone, Copy, PartialEq, Eq, Structural)]
pub enum WebSocketFrameFormat {
    TextJson,
    BinaryMessagePack,
}

impl Default for WebSocketFrameFormat {
    /// JSON text frames.
    fn default() -> (res: Self)
        ensures
            res == WebSocketFrameFormat::TextJson,
    {
        WebSocketFrameFormat::TextJson
    }
}

/// How a client authenticates its handshake.
#[derive(Debug, Clone)]
pub enum WebSocketClientAuth {
    /// No `Authorization` header.
    NoAuth,
    /// `Authorization: Bearer <token>` (API keys and JWTs alike).
    Bearer(String),
    /// `Authorization: Basic <base64(username:password)>`.
    Basic { username: String, password: String },
}

/// Digit `d` (0 to 63) of the standard Base64 alphabet: `A`-`Z`, `a`-`z`,
/// `0`-`9`, `+`, `/`.
pub open spec fn base64_digit(d: int) -> char {
    if d < 26 {
        (65 + d) as u32 as char
    } else if d < 52 {
        (97 + d - 26) as u32 as char
    } else if d < 62 {
        (48 + d - 52) as u32 as char
    } else if d == 62 {
        '+'
    } else {
        '/'
    }
}

/// The standard (RFC 4648, padded) Base64 encoding of `bytes`: each group of
/// three bytes gives four digits of six bits each, most significant first; a
/// last group of one or two bytes is filled up with zero bits, and the text
/// with `=` to four characters.
pub open spec fn base64_standard(bytes: Seq<u8>) -> Seq<char>
    decreases bytes.len(),
{
    if bytes.len() == 0 {
        Seq::empty()
    } else if bytes.len() == 1 {
        seq![base64_digit(bytes[0] as int / 4), base64_digit((bytes[0] as int % 4) * 16), '=', '=']
    } else if bytes.len() == 2 {
        seq![
            base64_digit(bytes[0] as int / 4),
            base64_digit((bytes[0] as int % 4) * 16 + bytes[1] as int / 16),
            base64_digit((bytes[1] as int % 16) * 4),
            '=',
        ]
    } else {
        seq![
            base64_digit(bytes[0] as int / 4),
            base64_digit((bytes[0] as int % 4) * 16 + bytes[1] as int / 16),
            base64_digit((bytes[1] as int % 16) * 4 + bytes[2] as int / 64),
            base64_digit(bytes[2] as int % 64),
        ] + base64_standard(bytes.subrange(3, bytes.len() as int))
    }
}

/// Every character of a Base64 text lies between `+` and `z`.
pub proof fn lemma_base64_chars(bytes: Seq<u8>)
    ensures
        forall|i: int| 0 <= i < base64_standard(bytes).len()
            ==> '+' <= #[trigger] base64_standard(bytes)[i] && base64_standard(bytes)[i] <= 'z',
    decreases bytes.len(),
{
    if bytes.len() >= 1 {
        let b0 = bytes[0] as int;
        lemma_base64_digit(b0 / 4);
        lemma_base64_digit((b0 % 4) * 16);
        if bytes.len() >= 2 {
            let b1 = bytes[1] as int;
            lemma_base64_digit((b0 % 4) * 16 + b1 / 16);
            lemma_base64_digit((b1 % 16) * 4);
            if bytes.len() >= 3 {
                let b2 = bytes[2] as int;
                lemma_base64_digit((b1 % 16) * 4 + b2 / 64);
                lemma_base64_digit(b2 % 64);
                let rest = bytes.subrange(3, bytes.len() as int);
                lemma_base64_chars(rest);
                let text = base64_standard(bytes);
                assert forall|i: int| 4 <= i < text.len() implies '+' <= #[trigger] text[i] && text[i] <= 'z' by {
                    assert(text[i] == base64_standard(rest)[i - 4]);
                }
            }
        }
    }
}

/// A Base64 digit lies between `+` and `z`.
proof fn lemma_base64_digit(d: int)
    requires
        0 <= d < 64,
    ensures
        '+' <= base64_digit(d) && base64_digit(d) <= 'z',
{
}

/// `base64::engine::general_purpose::STANDARD.encode`: the standard padded
/// Base64 text of `bytes`, as [`base64_standard`] spells it out.
#[verifier::external_body]
fn base64_encode(bytes: &[u8]) -> (res: String)
    ensures
        res@ == base64_standard(bytes@),
{
    base64::engine::general_purpose::STANDARD.encode(bytes)
}

/// `"Bearer <token>"`.
pub fn bearer_authorization_value(token: &str) -> (res: String)
    ensures
        res@ == "Bearer "@ + token@,
{
    let mut s = String::from_str("Bearer ");
    s.append(token);
    s
}

/// `"Basic <encoded>"`, for the Base64 text `encoded` of the credentials.
pub fn basic_authorization_value(encoded: &str) -> (res: String)
    ensures
        res@ == "Basic "@ + encoded@,
{
    let mut s = String::from_str("Basic ");
    s.append(encoded);
    s
}

/// The `Authorization` header text for `auth`, if any.
pub open spec fn authorization_text(auth: WebSocketClientAuth) -> Option<Seq<char>> {
    match auth {
        WebSocketClientAuth::NoAuth => None,
        WebSocketClientAuth::Bearer(token) => Some("Bearer "@ + token@),
        WebSocketClientAuth::Basic { username, password } =>
            Some("Basic "@ + base64_standard(encode_utf8(username@ + ":"@ + password@))),
    }
}

impl WebSocketClientAuth {
    /// The `Authorization` header text for this authentication, if any.
    pub fn authorization_header_value(&self) -> (res: Option<String>)
        ensures
            match res {
                Some(v) => authorization_text(*self) == Some(v@),
                None => authorization_text(*self) is None,
            },
    {
        match self {
            WebSocketClientAuth::NoAuth => None,
            WebSocketClientAuth::Bearer(token) => Some(bearer_authorization_value(token.as_str())),
            WebSocketClientAuth::Basic { username, password } => {
                let mut raw = username.clone();
                raw.append(":");
                raw.append(password.as_str());
                let encoded = base64_encode(raw.as_str().as_bytes());
                Some(basic_authorization_value(encoded.as_str()))
            },
        }
    }
}

/// Whether `s` may stand in an HTTP header value: no control character but
/// horizontal tab, and no DEL.
pub open spec fn is_header_text(s: Seq<char>) -> bool {
    forall|i: int| 0 <= i < s.len() ==> (#[trigger] s[i] == '\t' || (' ' <= s[i] && s[i] != '\u{7f}'))
}

/// `http::HeaderValue::from_str(text).is_ok()`: whether `text` is accepted as
/// a header value. Every byte from 32 up but 127 is accepted, and the tab;
/// so at the level of characters, every character but the control characters
/// other than tab, and DEL (a character beyond ASCII is encoded in bytes from
/// 128 up).
#[verifier::external_body]
fn header_value_accepts(text: &str) -> (res: bool)
    ensures
        res == is_header_text(text@),
{
    http::HeaderValue::from_str(text).is_ok()
}

/// The `Authorization` text of Basic authentication may always stand in a
/// header value: `Basic ` followed by Base64 characters.
pub proof fn lemma_basic_authorization_is_header_text(username: Seq<char>, password: Seq<char>)
    ensures
        is_header_text("Basic "@ + base64_standard(encode_utf8(username + ":"@ + password))),
{
    let encoded = base64_standard(encode_utf8(username + ":"@ + password));
    lemma_base64_chars(encode_utf8(username + ":"@ + password));
    reveal_strlit("Basic ");
    let text = "Basic "@ + encoded;
    assert forall|i: int| 0 <= i < text.len() implies (#[trigger] text[i] == '\t'
        || (' ' <= text[i] && text[i] != '\u{7f}')) by {
        if i >= 6 {
            assert(text[i] == encoded[i - 6]);
        }
    }
}

/// Why a handshake request cannot be built.
#[derive(Debug, Clone, Copy, PartialEq, Eq, Structural)]
pub enum HandshakeError {
    /// The `Authorization` text holds a character that no header value may hold.
    InvalidHeaderValue,
}

/// The headers that a client adds to its handshake request.
#[derive(Debug)]
pub struct HandshakeHeaders {
    /// The `Authorization` value, if any.
    pub authorization: Option<String>,
    /// The `Sec-WebSocket-Protocol` value, if any.
    pub subprotocol: Option<String>,
}

/// A client's connection settings, set step by step before connecting.
#[derive(Debug, Clone)]
pub struct WebSocketClientBuilder {
    pub url: String,
    pub auth: WebSocketClientAuth,
    pub frame_format: WebSocketFrameFormat,
}

impl WebSocketClientBuilder {
    /// Settings for `url`: no authentication, JSON frames.
    pub fn new(url: &str) -> (res: Self)
        ensures
            res.url@ == url@,
            res.auth == WebSocketClientAuth::NoAuth,
            res.frame_format == WebSocketFrameFormat::TextJson,
    {
        WebSocketClientBuilder {
            url: String::from_str(url),
            auth: WebSocketClientAuth::NoAuth,
            frame_format: WebSocketFrameFormat::TextJson,
        }
    }

    fn with_auth(self, auth: WebSocketClientAuth) -> (res: Self)
        ensures
            res == (WebSocketClientBuilder { auth, ..self }),
    {
        let mut s = self;
        s.auth = auth;
        s
    }

    /// Authenticates with a bearer token.
    pub fn with_bearer_auth(self, token: &str) -> (res: Self)
        ensures
            res.auth matches WebSocketClientAuth::Bearer(t) && t@ == token@,
            res.url == self.url && res.frame_format == self.frame_format,
    {
        self.with_auth(WebSocketClientAuth::Bearer(String::from_str(token)))
    }

    /// Authenticates with an API key, sent as a bearer token.
    pub fn with_api_key_auth(self, api_key: &str) -> (res: Self)
        ensures
            res.auth matches WebSocketClientAuth::Bearer(t) && t@ == api_key@,
            res.url == self.url && res.frame_format == self.frame_format,
    {
        self.with_bearer_auth(api_key)
    }

    /// Authenticates with a JWT, sent as a bearer token.
    pub fn with_jwt_auth(self, jwt: &str) -> (res: Self)
        ensures
            res.auth matches WebSocketClientAuth::Bearer(t) && t@ == jwt@,
            res.url == self.url && res.frame_format == self.frame_format,
    {
        self.with_bearer_auth(jwt)
    }

    /// Authenticates with a user name and password.
    pub fn with_basic_auth(self, username: &str, password: &str) -> (res: Self)
        ensures
            res.auth matches WebSocketClientAuth::Basic { username: u, password: p }
                && u@ == username@ && p@ == password@,
            res.url == self.url && res.frame_format == self.frame_format,
    {
        self.with_auth(WebSocketClientAuth::Basic {
            username: String::from_str(username),
            password: String::from_str(password),
        })
    }

    /// Drops any authentication.
    pub fn without_auth(self) -> (res: Self)
        ensures
            res == (WebSocketClientBuilder { auth: WebSocketClientAuth::NoAuth, ..self }),
    {
        self.with_auth(WebSocketClientAuth::NoAuth)
    }

    /// Sets the framing of sent messages.
    pub fn with_frame_format(self, format: WebSocketFrameFormat) -> (res: Self)
        ensures
            res == (WebSocketClientBuilder { frame_format: format, ..self }),
    {
        let mut s = self;
        s.frame_format = format;
        s
    }

    /// Sends MessagePack binary frames.
    pub fn with_binary_messagepack(self) -> (res: Self)
        ensures
            res == (WebSocketClientBuilder { frame_format: WebSocketFrameFormat::BinaryMessagePack, ..self }),
    {
        self.with_frame_format(WebSocketFrameFormat::BinaryMessagePack)
    }

    /// Sends JSON text frames.
    pub fn with_text_json(self) -> (res: Self)
        ensures
            res == (WebSocketClientBuilder { frame_format: WebSocketFrameFormat::TextJson, ..self }),
    {
        self.with_frame_format(WebSocketFrameFormat::TextJson)
    }

    /// The headers of the handshake: `Authorization` from the authentication
    /// (refused when its text cannot be a header value, which only a bearer
    /// token can cause), and `Sec-WebSocket-Protocol: msgpack` for
    /// MessagePack framing.
    pub fn handshake_headers(&self) -> (res: Result<HandshakeHeaders, HandshakeError>)
        ensures
            !(self.auth is Bearer) ==> res is Ok,
            match authorization_text(self.auth) {
                Some(t) => {
                    &&& !is_header_text(t) ==> res == Err::<HandshakeHeaders, HandshakeError>(HandshakeError::InvalidHeaderValue)
                    &&& is_header_text(t) ==> (res matches Ok(h) && h.authorization matches Some(a) && a@ == t)
                },
                None => res matches Ok(h) && h.authorization is None,
            },
            res matches Ok(h) ==> (if self.frame_format == WebSocketFrameFormat::BinaryMessagePack {
                h.subprotocol matches Some(p) && p@ == "msgpack"@
            } else {
                h.subprotocol is None
            }),
    {
        let authorization = self.auth.authorization_header_value();
        proof {
            if let WebSocketClientAuth::Basic { username, password } = &self.auth {
                lemma_basic_authorization_is_header_text(username@, password@);
            }
        }
        match &authorization {
            Some(text) => {
                if !header_value_accepts(text.as_str()) {
                    return Err(HandshakeError::InvalidHeaderValue);
                }
            },
            None => {},
        }
        let subprotocol = match self.frame_format {
            WebSocketFrameFormat::BinaryMessagePack => Some(String::from_str("msgpack")),
            WebSocketFrameFormat::TextJson => None,
        };
        Ok(HandshakeHeaders { authorization, subprotocol })
    }
}

} // verus!
