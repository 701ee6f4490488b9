//! The HTTP layer: the error taxonomy, request methods, query and form
//! parameter values, and the parsed request with its parsing functions.

use crate::strmap::StringMap;
use crate::text::{
    all_dec_digits, dec_val, ends_with, eq_ignore_case, find_char, first_index_of,
    lemma_first_index_of, spec_ends_with,
    split_on, split_string, str_eq_ignore_case,
};
use vstd::prelude::*;
use vstd::string::*;

verus! {

/// The error taxonomy: a redirect (a non-error control transfer), a missing
/// resource, a malformed request, or an internal failure.
#[derive(Debug, Clone, PartialEq)]
pub enum HttpError {
    Redirect(String),
    NotFound(String),
    BadRequest(String),
    ServerError(String),
    Unspecified,
}

impl HttpError {
    /// The status code the taxonomy assigns to each kind of error. The
    /// connection handler deliberately answers every handler failure with
    /// status 500 instead; this mapping documents the intended taxonomy.
    pub open spec fn spec_status_code(self) -> int {
        match self {
            HttpError::Redirect(_) => 307,
            HttpError::BadRequest(_) => 400,
            HttpError::NotFound(_) => 404,
            HttpError::ServerError(_) => 500,
            HttpError::Unspecified => 500,
        }
    }

    pub fn status_code(&self) -> (r: i32)
        ensures
            r == self.spec_status_code(),
    {
        match self {
            HttpError::Redirect(_) => 307,
            HttpError::BadRequest(_) => 400,
            HttpError::NotFound(_) => 404,
            HttpError::ServerError(_) => 500,
            HttpError::Unspecified => 500,
        }
    }

    /// The human-readable description of the error.
    pub open spec fn spec_message(self) -> Seq<char> {
        match self {
            HttpError::Redirect(target) => "Redirection to "@ + target@,
            HttpError::BadRequest(msg) => msg@,
            HttpError::NotFound(what) => what@,
            HttpError::ServerError(msg) => msg@,
            HttpError::Unspecified => "Unspecified error"@,
        }
    }

    pub fn message(&self) -> (r: String)
        ensures
            r@ == self.spec_message(),
    {
        match self {
            HttpError::Redirect(target) => {
                let mut m = String::from_str("Redirection to ");
                m.append(target.as_str());
                m
            },
            HttpError::BadRequest(msg) => msg.clone(),
            HttpError::NotFound(what) => what.clone(),
            HttpError::ServerError(msg) => msg.clone(),
            HttpError::Unspecified => String::from_str("Unspecified error"),
        }
    }
}

/// The request method; only these two are served.
#[derive(Debug, Copy, Clone, PartialEq, Eq, Structural)]
pub enum RequestType {
    Get,
    Post,
}

impl RequestType {
    /// Parses a method token, matching `GET` and `POST` without regard to
    /// ASCII case; anything else is a bad request.
    pub fn parse(value: &str) -> (r: Result<RequestType, HttpError>)
        ensures
            match r {
                Ok(t) => (t == RequestType::Get && eq_ignore_case(value@, "get"@)) || (t
                    == RequestType::Post && eq_ignore_case(value@, "post"@)),
                Err(e) => !eq_ignore_case(value@, "get"@) && !eq_ignore_case(value@, "post"@) && (e
                    matches HttpError::BadRequest(m) && m@ == "Invalid request method"@),
            },
    {
        if str_eq_ignore_case(value, "get") {
            Ok(RequestType::Get)
        } else if str_eq_ignore_case(value, "post") {
            Ok(RequestType::Post)
        } else {
            Err(HttpError::BadRequest(String::from_str("Invalid request method")))
        }
    }
}

/// A query or form parameter: a single value, or the ordered list collected
/// from a repeated `key[]` parameter.
#[derive(Debug, Clone)]
pub enum ParameterValue {
    Scalar(String),
    List(Vec<String>),
}

impl ParameterValue {
    /// The scalar payload, or an error on a list value.
    pub fn as_string(&self) -> (r: Result<&String, HttpError>)
        ensures
            match r {
                Ok(s) => self matches ParameterValue::Scalar(v) && v@ == s@,
                Err(e) => self is List && (e matches HttpError::ServerError(m) && m@
                    == "Invalid parameter value"@),
            },
    {
        match self {
            ParameterValue::Scalar(s) => Ok(s),
            ParameterValue::List(_) => Err(
                HttpError::ServerError(String::from_str("Invalid parameter value")),
            ),
        }
    }

    /// The list payload, or an error on a scalar value.
    pub fn as_array(&self) -> (r: Result<&Vec<String>, HttpError>)
        ensures
            match r {
                Ok(a) => self matches ParameterValue::List(v) && v@ == a@,
                Err(e) => self is Scalar && (e matches HttpError::ServerError(m) && m@
                    == "Invalid parameter value"@),
            },
    {
        match self {
            ParameterValue::List(a) => Ok(a),
            ParameterValue::Scalar(_) => Err(
                HttpError::ServerError(String::from_str("Invalid parameter value")),
            ),
        }
    }
}

impl PartialEq for ParameterValue {
    #[verifier::loop_isolation(false)]
    fn eq(&self, other: &Self) -> (r: bool) {
        match (self, other) {
            (ParameterValue::Scalar(a), ParameterValue::Scalar(b)) => a.eq(b),
            (ParameterValue::List(a), ParameterValue::List(b)) => {
                if a.len() != b.len() {
                    proof {
                        assert(a.deep_view() != b.deep_view()) by {
                            assert(a.deep_view().len() != b.deep_view().len());
                        }
                    }
                    return false;
                }
                let mut i: usize = 0;
                while i < a.len()
                    invariant
                        i <= a@.len(),
                        a@.len() == b@.len(),
                        forall|j: int| 0 <= j < i ==> a.deep_view()[j] == b.deep_view()[j],
                    decreases a@.len() - i,
                {
                    if !a[i].eq(&b[i]) {
                        proof {
                            assert(a.deep_view()[i as int] == a@[i as int]@);
                            assert(b.deep_view()[i as int] == b@[i as int]@);
                        }
                        return false;
                    }
                    proof {
                        assert(a.deep_view()[i as int] == a@[i as int]@);
                        assert(b.deep_view()[i as int] == b@[i as int]@);
                    }
                    i = i + 1;
                }
                proof {
                    assert(a.deep_view() =~= b.deep_view());
                }
                true
            },
            _ => false,
        }
    }
}

impl vstd::std_specs::cmp::PartialEqSpecImpl for ParameterValue {
    open spec fn obeys_eq_spec() -> bool {
        true
    }

    open spec fn eq_spec(&self, other: &Self) -> bool {
        match (self, other) {
            (ParameterValue::Scalar(a), ParameterValue::Scalar(b)) => a@ == b@,
            (ParameterValue::List(a), ParameterValue::List(b)) => a.deep_view() == b.deep_view(),
            _ => false,
        }
    }
}

/// What a percent-encoded string decodes to; the decoding is a function of
/// the input characters alone.
pub uninterp spec fn percent_decoded(s: Seq<char>) -> Seq<char>;

/// Relies on `url_escape::decode`: replaces percent-encoded bytes in the
/// string and reads the result as text, depending on the input alone; a
/// string holding no `%` passes through unchanged.
#[verifier::external_body]
fn percent_decode(s: &str) -> (r: String)
    ensures
        r@ == percent_decoded(s@),
        (forall|i: int| 0 <= i < s@.len() ==> s@[i] != '%') ==> r@ == s@,
{
    url_escape::decode(s).into_owned()
}

/// The abstract shape of a parameter value: its text, or its list of texts.
pub ghost enum ParamShape {
    Scalar(Seq<char>),
    List(Seq<Seq<char>>),
}

pub open spec fn shape_of(p: ParameterValue) -> ParamShape {
    match p {
        ParameterValue::Scalar(s) => ParamShape::Scalar(s@),
        ParameterValue::List(v) => ParamShape::List(v.deep_view()),
    }
}

/// The abstract shape of a parameter mapping.
pub open spec fn params_shape(m: Map<Seq<char>, ParameterValue>) -> Map<Seq<char>, ParamShape> {
    Map::new(|k: Seq<char>| m.contains_key(k), |k: Seq<char>| shape_of(m[k]))
}

/// One `key=value` token applied to an accumulated parameter mapping: a
/// token without `=` is skipped; a decoded key ending in `[]` appends to
/// that key's list, starting one on first occurrence, and fails on a key
/// already holding a scalar; any other key stores a scalar, last write wins.
pub open spec fn apply_param(m: Map<Seq<char>, ParamShape>, tok: Seq<char>) -> Option<
    Map<Seq<char>, ParamShape>,
> {
    let eq = first_index_of(tok, '=');
    if !(0 <= eq < tok.len()) {
        Some(m)
    } else {
        let key = percent_decoded(tok.take(eq));
        let val = percent_decoded(tok.skip(eq + 1));
        if spec_ends_with(key, "[]"@) {
            let k = key.take(key.len() - 2);
            if !m.contains_key(k) {
                Some(m.insert(k, ParamShape::List(seq![val])))
            } else if m[k] is List {
                Some(m.insert(k, ParamShape::List(m[k]->List_0.push(val))))
            } else {
                None
            }
        } else {
            Some(m.insert(key, ParamShape::Scalar(val)))
        }
    }
}

/// A token sequence applied in order, short-circuiting on failure.
pub open spec fn apply_params(m: Map<Seq<char>, ParamShape>, toks: Seq<Seq<char>>) -> Option<
    Map<Seq<char>, ParamShape>,
>
    decreases toks.len(),
{
    if toks.len() == 0 {
        Some(m)
    } else {
        match apply_params(m, toks.drop_last()) {
            Some(m2) => apply_param(m2, toks.last()),
            None => None,
        }
    }
}

/// The parameter mapping a query or form string parses to, or nothing when
/// it is rejected.
pub open spec fn spec_parse_parameters(s: Seq<char>) -> Option<Map<Seq<char>, ParamShape>> {
    apply_params(Map::empty(), split_on(s, '&'))
}

proof fn lemma_apply_params_none(m: Map<Seq<char>, ParamShape>, toks: Seq<Seq<char>>, j: int)
    requires
        0 <= j <= toks.len(),
        apply_params(m, toks.take(j)) is None,
    ensures
        apply_params(m, toks) is None,
    decreases toks.len() - j,
{
    if j < toks.len() {
        assert(toks.take(j + 1).drop_last() =~= toks.take(j));
        lemma_apply_params_none(m, toks, j + 1);
    } else {
        assert(toks.take(j) =~= toks);
    }
}

/// Parses a query or form string into its parameter mapping.
#[verifier::loop_isolation(false)]
pub fn parse_parameters(parameters: &str) -> (r: Result<StringMap<ParameterValue>, HttpError>)
    ensures
        match r {
            Ok(m) => m.wf() && spec_parse_parameters(parameters@) == Some(params_shape(m@)),
            Err(e) => spec_parse_parameters(parameters@) is None && (e matches
                HttpError::BadRequest(msg) && msg@ == "Invalid request body"@),
        },
{
    let tokens = split_string(parameters, '&');
    let ghost toks = split_on(parameters@, '&');
    let mut params: StringMap<ParameterValue> = StringMap::new();
    let n = tokens.len();
    let mut i: usize = 0;
    proof {
        assert(toks.take(0) =~= Seq::<Seq<char>>::empty());
        assert(params_shape(params@) =~= Map::<Seq<char>, ParamShape>::empty());
    }
    while i < n
        invariant
            i <= n,
            n == toks.len(),
            tokens.deep_view() == toks,
            params.wf(),
            apply_params(Map::empty(), toks.take(i as int)) == Some(params_shape(params@)),
        decreases n - i,
    {
        proof {
            assert(toks.take(i as int + 1).drop_last() =~= toks.take(i as int));
            assert(tokens.deep_view()[i as int] == tokens@[i as int]@);
        }
        let tok = &tokens[i];
        let ghost m0 = params_shape(params@);
        match find_char(tok.as_str(), '=') {
            None => {
                proof {
                    lemma_first_index_of(tok@, '=');
                    assert(first_index_of(tok@, '=') == -1) by {
                        if first_index_of(tok@, '=') != -1 {
                            assert(tok@[first_index_of(tok@, '=')] == '=');
                        }
                    }
                    assert(apply_param(m0, toks[i as int]) == Some(m0));
                }
            },
            Some(eq) => {
                let toklen = tok.as_str().unicode_len();
                proof {
                    lemma_first_index_of(tok@, '=');
                    assert(first_index_of(tok@, '=') == eq as int) by {
                        let fi = first_index_of(tok@, '=');
                        if fi == -1 {
                            assert(tok@[eq as int] != '=');
                        } else {
                            if fi < eq as int {
                                assert(tok@[fi] != '=');
                            }
                            if (eq as int) < fi {
                                assert(tok@[eq as int] != '=');
                            }
                        }
                    }
                }
                let rawkey = tok.as_str().substring_char(0, eq);
                let rawval = tok.as_str().substring_char(eq + 1, toklen);
                proof {
                    assert(rawkey@ =~= tok@.take(eq as int));
                    assert(rawval@ =~= tok@.skip(eq as int + 1));
                }
                let key = percent_decode(rawkey);
                let value = percent_decode(rawval);
                if ends_with(key.as_str(), "[]") {
                    proof {
                        reveal_strlit("[]");
                        assert(key@.len() >= 2);
                    }
                    let klen = key.as_str().unicode_len();
                    let stripped = key.as_str().substring_char(0, klen - 2);
                    proof {
                        assert(stripped@ =~= key@.take(key@.len() - 2));
                    }
                    let shortkey = stripped.to_owned();
                    match params.get(shortkey.as_str()) {
                        None => {
                            let mut list: Vec<String> = Vec::new();
                            list.push(value);
                            let ghost lv = list.deep_view();
                            proof {
                                assert(lv =~= seq![percent_decoded(tok@.skip(eq as int + 1))]);
                            }
                            params.insert(shortkey, ParameterValue::List(list));
                            proof {
                                assert(params_shape(params@) =~= m0.insert(
                                    shortkey@,
                                    ParamShape::List(lv),
                                ));
                            }
                        },
                        Some(existing) => {
                            match existing {
                                ParameterValue::List(l) => {
                                    let mut list = l.clone();
                                    proof {
                                        assert(list.deep_view() =~= l.deep_view());
                                    }
                                    list.push(value);
                                    let ghost lv = list.deep_view();
                                    proof {
                                        assert(lv =~= l.deep_view().push(
                                            percent_decoded(tok@.skip(eq as int + 1)),
                                        ));
                                        assert(m0.contains_key(shortkey@));
                                        assert(m0[shortkey@] == shape_of(params@[shortkey@]));
                                    }
                                    params.insert(shortkey, ParameterValue::List(list));
                                    proof {
                                        assert(params_shape(params@) =~= m0.insert(
                                            shortkey@,
                                            ParamShape::List(lv),
                                        ));
                                    }
                                },
                                ParameterValue::Scalar(_) => {
                                    proof {
                                        assert(m0.contains_key(shortkey@));
                                        assert(m0[shortkey@] is Scalar);
                                        assert(apply_param(m0, toks[i as int]) is None);
                                        assert(apply_params(
                                            Map::empty(),
                                            toks.take(i as int + 1),
                                        ) is None);
                                        lemma_apply_params_none(
                                            Map::empty(),
                                            toks,
                                            i as int + 1,
                                        );
                                    }
                                    return Err(
                                        HttpError::BadRequest(
                                            String::from_str("Invalid request body"),
                                        ),
                                    );
                                },
                            }
                        },
                    }
                } else {
                    let ghost kv = key@;
                    params.insert(key, ParameterValue::Scalar(value));
                    proof {
                        assert(params_shape(params@) =~= m0.insert(
                            kv,
                            ParamShape::Scalar(percent_decoded(tok@.skip(eq as int + 1))),
                        ));
                    }
                }
            },
        }
        i = i + 1;
    }
    proof {
        assert(toks.take(n as int) =~= toks);
    }
    Ok(params)
}

/// The abstract shape of a header mapping.
pub open spec fn header_shape(m: Map<Seq<char>, String>) -> Map<Seq<char>, Seq<char>> {
    Map::new(|k: Seq<char>| m.contains_key(k), |k: Seq<char>| m[k]@)
}

/// A header's value: the text after the colon, without one leading space
/// and without the trailing line break. Stripping that one space is what
/// makes the `Content-Type` equality check of the form-body rule read the
/// conventional `Name: value` line correctly.
pub open spec fn header_value_of(rest: Seq<char>) -> Seq<char> {
    let trimmed = if rest.len() >= 1 && rest[0] == ' ' {
        rest.skip(1)
    } else {
        rest
    };
    if spec_ends_with(trimmed, "\r\n"@) {
        trimmed.take(trimmed.len() - 2)
    } else {
        trimmed
    }
}

/// One header line applied to the accumulated headers: a line without a
/// colon is skipped, a repeated name keeps its later value.
pub open spec fn apply_header_line(m: Map<Seq<char>, Seq<char>>, line: Seq<char>) -> Map<
    Seq<char>,
    Seq<char>,
> {
    let c = first_index_of(line, ':');
    if 0 <= c < line.len() {
        m.insert(line.take(c), header_value_of(line.skip(c + 1)))
    } else {
        m
    }
}

/// The header mapping of a sequence of header lines, in order.
pub open spec fn headers_of(lines: Seq<Seq<char>>) -> Map<Seq<char>, Seq<char>>
    decreases lines.len(),
{
    if lines.len() == 0 {
        Map::empty()
    } else {
        apply_header_line(headers_of(lines.drop_last()), lines.last())
    }
}

/// The method a request-line token denotes, if any.
pub open spec fn spec_method_of(tok: Seq<char>) -> Option<RequestType> {
    if eq_ignore_case(tok, "get"@) {
        Some(RequestType::Get)
    } else if eq_ignore_case(tok, "post"@) {
        Some(RequestType::Post)
    } else {
        None
    }
}

/// A parsed request: method, route, headers, and the query and form
/// parameter mappings where the request carried them.
#[derive(Debug)]
pub struct HttpRequest {
    pub method: RequestType,
    pub route: String,
    pub header: StringMap<String>,
    pub get: Option<StringMap<ParameterValue>>,
    pub post: Option<StringMap<ParameterValue>>,
}

impl HttpRequest {
    pub open spec fn wf(self) -> bool {
        &&& self.header.wf()
        &&& (self.get matches Some(g) ==> g.wf())
        &&& (self.post matches Some(p) ==> p.wf())
    }

    /// Parses a request head: the request line split on single spaces into
    /// method and route, and the header lines; a route with `?` has the
    /// remainder parsed as query parameters and is truncated there.
    #[verifier::loop_isolation(false)]
    pub fn from_head(first_line: &str, header_lines: &Vec<String>) -> (r: Result<
        HttpRequest,
        HttpError,
    >)
        ensures
            ({
                let toks = split_on(first_line@, ' ');
                match r {
                    Ok(req) => {
                        &&& req.wf()
                        &&& req.post is None
                        &&& header_shape(req.header@) == headers_of(header_lines.deep_view())
                        &&& spec_method_of(toks[0]) == Some(req.method)
                        &&& toks.len() >= 2
                        &&& ({
                            let raw = toks[1];
                            let q = first_index_of(raw, '?');
                            if 0 <= q < raw.len() {
                                &&& req.route@ == raw.take(q)
                                &&& (req.get matches Some(g) && spec_parse_parameters(
                                    raw.skip(q + 1),
                                ) == Some(params_shape(g@)))
                            } else {
                                &&& req.route@ == raw
                                &&& req.get is None
                            }
                        })
                    },
                    Err(e) => {
                        ||| (spec_method_of(toks[0]) is None && (e matches HttpError::BadRequest(m)
                            && m@ == "Corrupted HTTP headers"@))
                        ||| (spec_method_of(toks[0]) is Some && toks.len() < 2 && (e matches
                        HttpError::BadRequest(m) && m@ == "Corrupted HTTP headers"@))
                        ||| (spec_method_of(toks[0]) is Some && toks.len() >= 2 && ({
                            let raw = toks[1];
                            let q = first_index_of(raw, '?');
                            &&& 0 <= q < raw.len()
                            &&& spec_parse_parameters(raw.skip(q + 1)) is None
                            &&& (e matches HttpError::BadRequest(m) && m@
                                == "Invalid request body"@)
                        }))
                    },
                }
            }),
    {
        let mut header: StringMap<String> = StringMap::new();
        let ghost lines = header_lines.deep_view();
        let n = header_lines.len();
        let mut i: usize = 0;
        proof {
            assert(lines.take(0) =~= Seq::<Seq<char>>::empty());
            assert(header_shape(header@) =~= Map::<Seq<char>, Seq<char>>::empty());
        }
        while i < n
            invariant
                i <= n,
                n == lines.len(),
                header_lines.deep_view() == lines,
                header.wf(),
                header_shape(header@) == headers_of(lines.take(i as int)),
            decreases n - i,
        {
            proof {
                assert(lines.take(i as int + 1).drop_last() =~= lines.take(i as int));
                assert(header_lines.deep_view()[i as int] == header_lines@[i as int]@);
            }
            let line = &header_lines[i];
            let ghost m0 = header_shape(header@);
            match find_char(line.as_str(), ':') {
                Some(c) => {
                    proof {
                        lemma_first_index_of(line@, ':');
                        assert(first_index_of(line@, ':') == c as int) by {
                            let fi = first_index_of(line@, ':');
                            if fi == -1 {
                                assert(line@[c as int] != ':');
                            } else {
                                if fi < c as int {
                                    assert(line@[fi] != ':');
                                }
                                if (c as int) < fi {
                                    assert(line@[c as int] != ':');
                                }
                            }
                        }
                    }
                    let linelen = line.as_str().unicode_len();
                    let name = line.as_str().substring_char(0, c);
                    let rest = line.as_str().substring_char(c + 1, linelen);
                    proof {
                        assert(name@ =~= line@.take(c as int));
                        assert(rest@ =~= line@.skip(c as int + 1));
                    }
                    let restlen = rest.unicode_len();
                    let trimmed = if restlen >= 1 && rest.get_char(0) == ' ' {
                        rest.substring_char(1, restlen)
                    } else {
                        rest
                    };
                    proof {
                        if rest@.len() >= 1 && rest@[0] == ' ' {
                            assert(trimmed@ =~= rest@.skip(1));
                        }
                    }
                    let value = if ends_with(trimmed, "\r\n") {
                        proof {
                            reveal_strlit("\r\n");
                            assert(trimmed@.len() >= 2);
                        }
                        let tlen = trimmed.unicode_len();
                        trimmed.substring_char(0, tlen - 2)
                    } else {
                        trimmed
                    };
                    proof {
                        assert(value@ =~= header_value_of(line@.skip(c as int + 1)));
                    }
                    header.insert(name.to_owned(), value.to_owned());
                    proof {
                        assert(header_shape(header@) =~= m0.insert(
                            line@.take(c as int),
                            header_value_of(line@.skip(c as int + 1)),
                        ));
                    }
                },
                None => {
                    proof {
                        lemma_first_index_of(line@, ':');
                        assert(first_index_of(line@, ':') == -1) by {
                            if first_index_of(line@, ':') != -1 {
                                assert(line@[first_index_of(line@, ':')] == ':');
                            }
                        }
                    }
                },
            }
            i = i + 1;
        }
        proof {
            assert(lines.take(n as int) =~= lines);
        }
        let tokens = split_string(first_line, ' ');
        proof {
            crate::text::lemma_split_on_nonempty(first_line@, ' ');
            assert(tokens@.len() == tokens.deep_view().len());
            assert(tokens.deep_view()[0] == tokens@[0]@);
        }
        proof {
            reveal_strlit("get");
            reveal_strlit("post");
            assert("get"@.len() != "post"@.len());
        }
        let method = match RequestType::parse(tokens[0].as_str()) {
            Ok(m) => m,
            Err(_) => {
                return Err(HttpError::BadRequest(String::from_str("Corrupted HTTP headers")));
            },
        };
        if tokens.len() < 2 {
            return Err(HttpError::BadRequest(String::from_str("Corrupted HTTP headers")));
        }
        proof {
            assert(tokens.deep_view()[1] == tokens@[1]@);
        }
        let raw = &tokens[1];
        let (route, get) = match find_char(raw.as_str(), '?') {
            Some(q) => {
                proof {
                    lemma_first_index_of(raw@, '?');
                    assert(first_index_of(raw@, '?') == q as int) by {
                        let fi = first_index_of(raw@, '?');
                        if fi == -1 {
                            assert(raw@[q as int] != '?');
                        } else {
                            if fi < q as int {
                                assert(raw@[fi] != '?');
                            }
                            if (q as int) < fi {
                                assert(raw@[q as int] != '?');
                            }
                        }
                    }
                }
                let rawlen = raw.as_str().unicode_len();
                let query = raw.as_str().substring_char(q + 1, rawlen);
                proof {
                    assert(query@ =~= raw@.skip(q as int + 1));
                }
                let params = match parse_parameters(query) {
                    Ok(p) => p,
                    Err(e) => {
                        return Err(e);
                    },
                };
                let route = raw.as_str().substring_char(0, q).to_owned();
                proof {
                    assert(route@ =~= raw@.take(q as int));
                }
                (route, Some(params))
            },
            None => {
                proof {
                    lemma_first_index_of(raw@, '?');
                    assert(first_index_of(raw@, '?') == -1) by {
                        if first_index_of(raw@, '?') != -1 {
                            assert(raw@[first_index_of(raw@, '?')] == '?');
                        }
                    }
                }
                (raw.clone(), None)
            },
        };
        Ok(HttpRequest { method, route, header, get, post: None })
    }

    /// How many body bytes to read as a form: the `Content-Length` value,
    /// provided it is a positive number and the `Content-Type` is
    /// `application/x-www-form-urlencoded`.
    pub fn form_content_length(&self) -> (r: Option<usize>)
        requires
            self.wf(),
        ensures
            ({
                let h = header_shape(self.header@);
                match r {
                    Some(n) => h.contains_key("Content-Length"@) && h.contains_key(
                        "Content-Type"@,
                    ) && h["Content-Type"@] == "application/x-www-form-urlencoded"@ && ({
                        let s = h["Content-Length"@];
                        s.len() > 0 && all_dec_digits(s) && n == dec_val(s) && n > 0
                    }),
                    None => !h.contains_key("Content-Length"@) || !h.contains_key("Content-Type"@)
                        || h["Content-Type"@] != "application/x-www-form-urlencoded"@ || ({
                        let s = h["Content-Length"@];
                        s.len() == 0 || !all_dec_digits(s) || dec_val(s) > usize::MAX || dec_val(s)
                            == 0
                    }),
                }
            }),
    {
        let length = match self.header.get("Content-Length") {
            Some(v) => match crate::text::parse_usize(v.as_str()) {
                Some(n) => n,
                None => {
                    return None;
                },
            },
            None => {
                return None;
            },
        };
        match self.header.get("Content-Type") {
            Some(t) => {
                if crate::text::str_eq(t.as_str(), "application/x-www-form-urlencoded") {
                    if length > 0 {
                        Some(length)
                    } else {
                        None
                    }
                } else {
                    None
                }
            },
            None => None,
        }
    }

    /// Parses the request body as form parameters and attaches them; the
    /// body must be text and parse as a parameter string.
    pub fn attach_form_body(&mut self, body: Vec<u8>) -> (r: Result<(), HttpError>)
        requires
            old(self).wf(),
        ensures
            final(self).wf(),
            match r {
                Ok(_) => {
                    &&& vstd::utf8::valid_utf8(body@)
                    &&& (final(self).post matches Some(p) && spec_parse_parameters(
                        vstd::utf8::decode_utf8(body@),
                    ) == Some(params_shape(p@)))
                    &&& final(self).method == old(self).method
                    &&& final(self).route == old(self).route
                    &&& final(self).header == old(self).header
                    &&& final(self).get == old(self).get
                },
                Err(e) => *final(self) == *old(self) && ((!vstd::utf8::valid_utf8(body@) && (e
                    matches HttpError::BadRequest(m) && m@ == "Invalid form body"@)) || (
                vstd::utf8::valid_utf8(body@) && spec_parse_parameters(
                    vstd::utf8::decode_utf8(body@),
                ) is None && (e matches HttpError::BadRequest(m) && m@ == "Invalid request body"@))),
            },
    {
        let text = match utf8_to_string(body) {
            Some(t) => t,
            None => {
                return Err(HttpError::BadRequest(String::from_str("Invalid form body")));
            },
        };
        let params = match parse_parameters(text.as_str()) {
            Ok(p) => p,
            Err(e) => {
                return Err(e);
            },
        };
        self.post = Some(params);
        Ok(())
    }
}

/// Relies on `String::from_utf8`: accepts exactly the valid UTF-8 byte
/// sequences and decodes one into its characters.
#[verifier::external_body]
fn utf8_to_string(bytes: Vec<u8>) -> (r: Option<String>)
    ensures
        match r {
            Some(s) => vstd::utf8::valid_utf8(bytes@) && s@ == vstd::utf8::decode_utf8(bytes@),
            None => !vstd::utf8::valid_utf8(bytes@),
        },
{
    String::from_utf8(bytes).ok()
}

} // verus!
