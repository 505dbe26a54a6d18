//! Errors of the LXD API, instance names, and the pure parts of the LXD
//! client: URL encoding, response classification and request paths.

use vstd::prelude::*;
use vstd::string::*;
use crate::text::{
    append_decimal, append_str, byte_is_alnum, char_is_alnum, contains_text, debug_quoted,
    debug_str, dec_string, hex_char, hex_digit, is_alnum_byte, is_alnum_char, occurs_at,
    oct_string, octal4, owned, push_char, str_eq, zero_padded,
};
use crate::lxd::models::LxdResponse;

verus! {

broadcast use vstd::string::group_string_axioms;

/// Maximum allowed LXD instance name length.
pub const MAX_INSTANCE_NAME_LEN: usize = 63;

/// Errors of the LXD API. A timeout carries its length in whole seconds.
#[derive(Debug)]
pub enum LxdApiError {
    NotFound(String),
    Conflict(String),
    Api { status: u16, message: String },
    Connection(String),
    Timeout(u64),
    Json(String),
    InvalidInput(String),
    OperationFailed(String),
}

/// The mathematical value of an [`LxdApiError`].
pub enum ApiErrorView {
    NotFound(Seq<char>),
    Conflict(Seq<char>),
    Api { status: u16, message: Seq<char> },
    Connection(Seq<char>),
    Timeout(u64),
    Json(Seq<char>),
    InvalidInput(Seq<char>),
    OperationFailed(Seq<char>),
}

impl View for LxdApiError {
    type V = ApiErrorView;

    open spec fn view(&self) -> ApiErrorView {
        match self {
            LxdApiError::NotFound(m) => ApiErrorView::NotFound(m@),
            LxdApiError::Conflict(m) => ApiErrorView::Conflict(m@),
            LxdApiError::Api { status, message } => ApiErrorView::Api {
                status: *status,
                message: message@,
            },
            LxdApiError::Connection(m) => ApiErrorView::Connection(m@),
            LxdApiError::Timeout(s) => ApiErrorView::Timeout(*s),
            LxdApiError::Json(m) => ApiErrorView::Json(m@),
            LxdApiError::InvalidInput(m) => ApiErrorView::InvalidInput(m@),
            LxdApiError::OperationFailed(m) => ApiErrorView::OperationFailed(m@),
        }
    }
}

/// How a whole number of seconds is written as a duration: zero is "0ns",
/// any other count its decimal digits and "s".
pub open spec fn duration_text(secs: u64) -> Seq<char> {
    if secs == 0 {
        "0ns"@
    } else {
        dec_string(secs as nat) + "s"@
    }
}

impl ApiErrorView {
    /// The human-readable rendering of an error.
    pub open spec fn display(self) -> Seq<char> {
        match self {
            ApiErrorView::NotFound(m) => "LXD API not found (404): "@ + m,
            ApiErrorView::Conflict(m) => "LXD API conflict (409): "@ + m,
            ApiErrorView::Api { status, message } => "LXD API error ("@ + dec_string(
                status as nat,
            ) + "): "@ + message,
            ApiErrorView::Connection(m) => "connection error: "@ + m,
            ApiErrorView::Timeout(s) => "timeout after "@ + duration_text(s),
            ApiErrorView::Json(m) => "JSON error: "@ + m,
            ApiErrorView::InvalidInput(m) => "invalid input: "@ + m,
            ApiErrorView::OperationFailed(m) => "operation failed: "@ + m,
        }
    }
}

impl LxdApiError {
    /// Renders the error for humans.
    pub fn to_string(&self) -> (r: String)
        ensures
            r@ == self@.display(),
    {
        match self {
            LxdApiError::NotFound(m) => {
                let mut s = owned("LXD API not found (404): ");
                append_str(&mut s, m.as_str());
                s
            },
            LxdApiError::Conflict(m) => {
                let mut s = owned("LXD API conflict (409): ");
                append_str(&mut s, m.as_str());
                s
            },
            LxdApiError::Api { status, message } => {
                let mut s = owned("LXD API error (");
                append_decimal(&mut s, *status as u64);
                append_str(&mut s, "): ");
                append_str(&mut s, message.as_str());
                s
            },
            LxdApiError::Connection(m) => {
                let mut s = owned("connection error: ");
                append_str(&mut s, m.as_str());
                s
            },
            LxdApiError::Timeout(secs) => {
                let mut s = owned("timeout after ");
                if *secs == 0 {
                    append_str(&mut s, "0ns");
                } else {
                    append_decimal(&mut s, *secs);
                    append_str(&mut s, "s");
                }
                s
            },
            LxdApiError::Json(m) => {
                let mut s = owned("JSON error: ");
                append_str(&mut s, m.as_str());
                s
            },
            LxdApiError::InvalidInput(m) => {
                let mut s = owned("invalid input: ");
                append_str(&mut s, m.as_str());
                s
            },
            LxdApiError::OperationFailed(m) => {
                let mut s = owned("operation failed: ");
                append_str(&mut s, m.as_str());
                s
            },
        }
    }
}

// ── Instance names ───────────────────────────────────────────────────────

/// A byte allowed inside an instance name.
pub open spec fn is_name_byte(b: u8) -> bool {
    is_alnum_byte(b) || b == 0x2d
}

/// LXD instance names start and end with an ASCII letter or digit, hold only
/// those and hyphens, and are at most 63 bytes long.
pub open spec fn valid_instance_name(bytes: Seq<u8>) -> bool {
    &&& 0 < bytes.len() <= MAX_INSTANCE_NAME_LEN
    &&& is_alnum_byte(bytes[0])
    &&& is_alnum_byte(bytes.last())
    &&& forall|i: int| 0 <= i < bytes.len() ==> is_name_byte(#[trigger] bytes[i])
}

/// The message with which a name is refused, checked in this order: empty,
/// too long, bad first byte, bad last byte, a bad byte anywhere.
pub open spec fn name_rejection(name: Seq<char>) -> Option<Seq<char>> {
    let bytes = vstd::utf8::encode_utf8(name);
    if bytes.len() == 0 {
        Some("instance name must not be empty"@)
    } else if bytes.len() > MAX_INSTANCE_NAME_LEN {
        Some(
            "instance name exceeds maximum length of "@ + dec_string(MAX_INSTANCE_NAME_LEN as nat)
                + " characters (got "@ + dec_string(bytes.len()) + ")"@,
        )
    } else if !is_alnum_byte(bytes[0]) {
        Some("instance name must start with an alphanumeric character: "@ + debug_quoted(name))
    } else if !is_alnum_byte(bytes.last()) {
        Some("instance name must end with an alphanumeric character: "@ + debug_quoted(name))
    } else if !(forall|i: int| 0 <= i < bytes.len() ==> is_name_byte(#[trigger] bytes[i])) {
        Some("instance name may only contain alphanumerics and hyphens: "@ + debug_quoted(name))
    } else {
        None
    }
}

/// Validates that an LXD instance name is safe for URL path interpolation.
pub fn validate_instance_name(name: &str) -> (r: Result<(), LxdApiError>)
    ensures
        r is Ok <==> valid_instance_name(name.spec_bytes()),
        r is Ok <==> name_rejection(name@) is None,
        r matches Err(e) ==> e@ == ApiErrorView::InvalidInput(name_rejection(name@)->0),
{
    let bytes = name.as_bytes();
    let n = bytes.len();
    if n == 0 {
        return Err(LxdApiError::InvalidInput(owned("instance name must not be empty")));
    }
    if n > MAX_INSTANCE_NAME_LEN {
        let mut m = owned("instance name exceeds maximum length of ");
        append_decimal(&mut m, MAX_INSTANCE_NAME_LEN as u64);
        append_str(&mut m, " characters (got ");
        append_decimal(&mut m, n as u64);
        append_str(&mut m, ")");
        return Err(LxdApiError::InvalidInput(m));
    }
    if !byte_is_alnum(bytes[0]) {
        let mut m = owned("instance name must start with an alphanumeric character: ");
        append_str(&mut m, debug_str(name).as_str());
        return Err(LxdApiError::InvalidInput(m));
    }
    if !byte_is_alnum(bytes[n - 1]) {
        let mut m = owned("instance name must end with an alphanumeric character: ");
        append_str(&mut m, debug_str(name).as_str());
        return Err(LxdApiError::InvalidInput(m));
    }
    let mut i: usize = 0;
    while i < n
        invariant
            n == bytes@.len(),
            bytes@ == name.spec_bytes(),
            0 < n <= MAX_INSTANCE_NAME_LEN,
            is_alnum_byte(bytes@[0]),
            is_alnum_byte(bytes@[n - 1]),
            i <= n,
            forall|j: int| 0 <= j < i ==> is_name_byte(#[trigger] bytes@[j]),
        decreases n - i,
    {
        let b = bytes[i];
        if !(byte_is_alnum(b) || b == 0x2d) {
            let mut m = owned("instance name may only contain alphanumerics and hyphens: ");
            append_str(&mut m, debug_str(name).as_str());
            return Err(LxdApiError::InvalidInput(m));
        }
        i = i + 1;
    }
    Ok(())
}


// ── Sanitizing sandbox names ─────────────────────────────────────────────

/// Every character not an ASCII letter or digit becomes a hyphen.
pub open spec fn replace_invalid(s: Seq<char>) -> Seq<char> {
    s.map_values(|c: char| if is_alnum_char(c) { c } else { '-' })
}

/// Drops every hyphen that directly follows a hyphen.
pub open spec fn collapse_hyphens(s: Seq<char>) -> Seq<char>
    decreases s.len(),
{
    if s.len() == 0 {
        Seq::empty()
    } else {
        let init = collapse_hyphens(s.drop_last());
        if s.last() == '-' && s.len() >= 2 && s[s.len() - 2] == '-' {
            init
        } else {
            init.push(s.last())
        }
    }
}

/// Prefixes `os` to a name that starts with a hyphen.
pub open spec fn ensure_alnum_start(s: Seq<char>) -> Seq<char> {
    if s.len() > 0 && s[0] == '-' {
        seq!['o', 's'] + s
    } else {
        s
    }
}

/// Keeps at most the first 63 characters.
pub open spec fn truncate_name(s: Seq<char>) -> Seq<char> {
    if s.len() > MAX_INSTANCE_NAME_LEN {
        s.take(MAX_INSTANCE_NAME_LEN as int)
    } else {
        s
    }
}

/// Removes the hyphens at the end.
pub open spec fn trim_trailing_hyphens(s: Seq<char>) -> Seq<char>
    decreases s.len(),
{
    if s.len() > 0 && s.last() == '-' {
        trim_trailing_hyphens(s.drop_last())
    } else {
        s
    }
}

/// The instance name derived from a sandbox name (empty when none can be).
pub open spec fn sanitized_name(name: Seq<char>) -> Seq<char> {
    trim_trailing_hyphens(truncate_name(ensure_alnum_start(collapse_hyphens(replace_invalid(name)))))
}

/// Characters allowed in an instance name.
pub open spec fn name_chars(s: Seq<char>) -> bool {
    forall|i: int| 0 <= i < s.len() ==> is_alnum_char(#[trigger] s[i]) || s[i] == '-'
}

/// No hyphen directly follows another.
pub open spec fn no_double_hyphen(s: Seq<char>) -> bool {
    forall|i: int| 0 <= i < s.len() - 1 ==> !(#[trigger] s[i] == '-' && s[i + 1] == '-')
}

/// The names that sanitizing leaves as they are.
pub open spec fn canonical_name(s: Seq<char>) -> bool {
    &&& 0 < s.len() <= MAX_INSTANCE_NAME_LEN
    &&& name_chars(s)
    &&& is_alnum_char(s[0])
    &&& is_alnum_char(s.last())
    &&& no_double_hyphen(s)
}

proof fn lemma_collapse_props(s: Seq<char>)
    ensures
        name_chars(s) ==> name_chars(collapse_hyphens(s)),
        no_double_hyphen(collapse_hyphens(s)),
        s.len() > 0 ==> collapse_hyphens(s).len() > 0 && collapse_hyphens(s)[0] == s[0]
            && collapse_hyphens(s).last() == s.last(),
        collapse_hyphens(s).len() <= s.len(),
        no_double_hyphen(s) ==> collapse_hyphens(s) == s,
    decreases s.len(),
{
    if s.len() > 0 {
        let p = s.drop_last();
        lemma_collapse_props(p);
        let init = collapse_hyphens(p);
        if name_chars(s) {
            assert(name_chars(p));
        }
        if no_double_hyphen(s) {
            assert(no_double_hyphen(p));
            assert(init.push(s.last()) =~= s);
        }
    }
}

proof fn lemma_trim_props(s: Seq<char>)
    ensures
        trim_trailing_hyphens(s).len() <= s.len(),
        forall|i: int|
            0 <= i < trim_trailing_hyphens(s).len() ==> #[trigger] trim_trailing_hyphens(s)[i]
                == s[i],
        trim_trailing_hyphens(s).len() > 0 ==> trim_trailing_hyphens(s).last() != '-',
        s.len() > 0 && s[0] != '-' ==> trim_trailing_hyphens(s).len() > 0,
    decreases s.len(),
{
    if s.len() > 0 && s.last() == '-' {
        lemma_trim_props(s.drop_last());
    }
}

proof fn lemma_prefix_of_name(t: Seq<char>, s: Seq<char>)
    requires
        t.len() <= s.len(),
        forall|i: int| 0 <= i < t.len() ==> #[trigger] t[i] == s[i],
    ensures
        name_chars(s) ==> name_chars(t),
        no_double_hyphen(s) ==> no_double_hyphen(t),
{
    if no_double_hyphen(s) {
        assert forall|i: int| 0 <= i < t.len() - 1 implies !(#[trigger] t[i] == '-' && t[i + 1]
            == '-') by {
            assert(t[i] == s[i] && t[i + 1] == s[i + 1]);
        }
    }
}

/// What sanitizing returns, when it returns a name, is canonical.
pub proof fn lemma_sanitized_is_canonical(name: Seq<char>)
    requires
        sanitized_name(name).len() > 0,
    ensures
        canonical_name(sanitized_name(name)),
{
    let r = replace_invalid(name);
    assert(name_chars(r));
    let c = collapse_hyphens(r);
    lemma_collapse_props(r);
    let e = ensure_alnum_start(c);
    if c.len() > 0 && c[0] == '-' {
        assert(name_chars(e));
        assert(no_double_hyphen(e)) by {
            assert forall|i: int| 0 <= i < e.len() - 1 implies !(#[trigger] e[i] == '-' && e[i + 1]
                == '-') by {
                if i >= 2 {
                    assert(e[i] == c[i - 2] && e[i + 1] == c[i - 1]);
                }
            }
        }
        assert(is_alnum_char(e[0]));
    }
    let t = truncate_name(e);
    lemma_prefix_of_name(t, e);
    let f = trim_trailing_hyphens(t);
    lemma_trim_props(t);
    lemma_prefix_of_name(f, t);
    if e.len() > 0 {
        assert(t[0] == e[0]);
    }
    assert(f[0] == t[0]);
}

/// A canonical name is its own sanitized form.
pub proof fn lemma_canonical_is_fixed(s: Seq<char>)
    requires
        canonical_name(s),
    ensures
        sanitized_name(s) == s,
{
    assert(replace_invalid(s) =~= s);
    lemma_collapse_props(s);
}

/// Sanitizing is idempotent: the sanitized form of a sanitized name is that
/// name again.
pub proof fn sanitize_is_idempotent(name: Seq<char>)
    requires
        sanitized_name(name).len() > 0,
    ensures
        sanitized_name(sanitized_name(name)) == sanitized_name(name),
{
    lemma_sanitized_is_canonical(name);
    lemma_canonical_is_fixed(sanitized_name(name));
}

/// The bytes of a canonical name form a valid instance name.
pub proof fn lemma_canonical_is_valid(s: Seq<char>)
    requires
        canonical_name(s),
    ensures
        valid_instance_name(vstd::utf8::encode_utf8(s)),
{
    assert(vstd::utf8::is_ascii_chars(s));
    vstd::utf8::is_ascii_chars_encode_utf8(s);
    let b = vstd::utf8::encode_utf8(s);
    assert forall|i: int| 0 <= i < b.len() implies is_name_byte(#[trigger] b[i]) by {
        assert(b[i] == s[i] as u8);
    }
    assert(b[0] == s[0] as u8);
    assert(b.last() == s.last() as u8);
}

proof fn lemma_small_bytes_are_ascii(s: Seq<char>)
    requires
        forall|i: int|
            0 <= i < vstd::utf8::encode_utf8(s).len() ==> #[trigger] vstd::utf8::encode_utf8(s)[i]
                < 0x80,
    ensures
        vstd::utf8::is_ascii_chars(s),
    decreases s.len(),
{
    if s.len() > 0 {
        let c = s[0] as u32;
        let head = vstd::utf8::encode_scalar(c);
        let rest = vstd::utf8::encode_utf8(s.drop_first());
        assert(vstd::utf8::encode_utf8(s) == head + rest);
        assert(head.len() > 0);
        assert(vstd::utf8::encode_utf8(s)[0] == head[0]);
        if !vstd::utf8::has_width_1_encoding(c) {
            assert(vstd::utf8::leading_byte_width_2(c) >= 0x80) by (bit_vector);
            assert(vstd::utf8::leading_byte_width_3(c) >= 0x80) by (bit_vector);
            assert(vstd::utf8::leading_byte_width_4(c) >= 0x80) by (bit_vector);
            assert(false);
        }
        assert forall|i: int| 0 <= i < rest.len() implies #[trigger] rest[i] < 0x80 by {
            assert(vstd::utf8::encode_utf8(s)[head.len() + i] == rest[i]);
        }
        lemma_small_bytes_are_ascii(s.drop_first());
        assert forall|i: int| 0 <= i < s.len() implies '\0' <= #[trigger] s[i] <= '\u{7f}' by {
            if i > 0 {
                assert(s[i] == s.drop_first()[i - 1]);
                assert('\0' <= s.drop_first()[i - 1] <= '\u{7f}');
            } else {
                assert(c <= 0x7f);
                vstd::utf8::char_u32_cast(s[0], c);
                assert(s[0] <= '\u{7f}');
            }
        }
    }
}

/// Every non-empty sandbox name yields an instance name.
pub proof fn named_sandboxes_have_instance_names(name: Seq<char>)
    requires
        name.len() > 0,
    ensures
        sanitized_name(name).len() > 0,
{
    let r = replace_invalid(name);
    let c = collapse_hyphens(r);
    lemma_collapse_props(r);
    let e = ensure_alnum_start(c);
    assert(e.len() > 0 && e[0] != '-');
    let t = truncate_name(e);
    assert(t.len() > 0 && t[0] == e[0]);
    lemma_trim_props(t);
}

/// A name that `validate_instance_name` accepts and that holds no doubled
/// hyphen is canonical, so sanitizing leaves it as it is.
pub proof fn valid_names_sanitize_to_themselves(name: Seq<char>)
    requires
        valid_instance_name(vstd::utf8::encode_utf8(name)),
        !contains_text(name, "--"@),
    ensures
        canonical_name(name),
        sanitized_name(name) == name,
{
    let b = vstd::utf8::encode_utf8(name);
    assert forall|i: int| 0 <= i < b.len() implies #[trigger] b[i] < 0x80 by {
        assert(is_name_byte(b[i]));
    }
    lemma_small_bytes_are_ascii(name);
    vstd::utf8::is_ascii_chars_encode_utf8(name);
    assert forall|i: int| 0 <= i < name.len() implies is_alnum_char(#[trigger] name[i]) || name[i]
        == '-' by {
        assert(name[i] as u8 == b[i]);
        assert(is_name_byte(b[i]));
    }
    assert(name[0] as u8 == b[0]);
    assert(name.last() as u8 == b.last());
    assert(is_alnum_char(name[0]));
    assert(is_alnum_char(name.last()));
    reveal_strlit("--");
    assert forall|i: int| 0 <= i < name.len() - 1 implies !(#[trigger] name[i] == '-' && name[i
        + 1] == '-') by {
        if name[i] == '-' && name[i + 1] == '-' {
            assert(name.subrange(i, i + 2) =~= "--"@);
            assert(occurs_at(name, "--"@, i));
        }
    }
    lemma_canonical_is_fixed(name);
}

/// Derives a valid LXD instance name from a sandbox name: non-alphanumeric
/// characters become hyphens, runs of hyphens collapse, a leading hyphen gets
/// an `os` prefix, the name is cut to 63 characters and trailing hyphens go.
pub fn sanitize_instance_name(name: &str) -> (r: Result<String, LxdApiError>)
    ensures
        r is Ok <==> sanitized_name(name@).len() > 0,
        r matches Ok(s) ==> s@ == sanitized_name(name@) && valid_instance_name(vstd::utf8::encode_utf8(s@)),
        r matches Err(e) ==> e@ == ApiErrorView::InvalidInput(
            "sandbox name produces empty instance name after sanitization"@,
        ),
{
    // Replace invalid chars with hyphens.
    let mut replaced: Vec<char> = Vec::new();
    for c in it: name.chars()
        invariant
            it.seq() == name@,
            replaced@ == replace_invalid(it.seq().take(it.index() as int)),
    {
        proof {
            assert(it.seq().take(it.index() + 1) =~= it.seq().take(it.index() as int).push(c));
        }
        if char_is_alnum(c) {
            replaced.push(c);
        } else {
            replaced.push('-');
        }
        assert(replaced@ =~= replace_invalid(it.seq().take(it.index() + 1)));
    }
    assert(name@.take(name@.len() as int) =~= name@);
    // Collapse consecutive hyphens.
    let mut collapsed: Vec<char> = Vec::new();
    let mut prev_hyphen = false;
    let n = replaced.len();
    let mut i: usize = 0;
    while i < n
        invariant
            n == replaced@.len(),
            i <= n,
            collapsed@ == collapse_hyphens(replaced@.take(i as int)),
            prev_hyphen == (i > 0 && replaced@[i - 1] == '-'),
        decreases n - i,
    {
        let c = replaced[i];
        proof {
            assert(replaced@.take(i + 1).drop_last() =~= replaced@.take(i as int));
        }
        if c == '-' {
            if !prev_hyphen {
                collapsed.push(c);
            }
            prev_hyphen = true;
        } else {
            collapsed.push(c);
            prev_hyphen = false;
        }
        i = i + 1;
    }
    assert(replaced@.take(n as int) =~= replaced@);
    // Ensure it starts with an alphanumeric character.
    let mut prefixed: Vec<char> = if collapsed.len() > 0 && collapsed[0] == '-' {
        let mut p = vec!['o', 's'];
        p.append(&mut collapsed);
        p
    } else {
        collapsed
    };
    assert(prefixed@ =~= ensure_alnum_start(collapse_hyphens(replace_invalid(name@))));
    // Truncate, then trim trailing hyphens.
    prefixed.truncate(MAX_INSTANCE_NAME_LEN);
    let ghost cut = prefixed@;
    assert(cut =~= truncate_name(ensure_alnum_start(collapse_hyphens(replace_invalid(name@)))));
    while prefixed.len() > 0 && prefixed[prefixed.len() - 1] == '-'
        invariant
            trim_trailing_hyphens(prefixed@) == trim_trailing_hyphens(cut),
        decreases prefixed.len(),
    {
        let ghost before = prefixed@;
        prefixed.pop();
        assert(prefixed@ =~= before.drop_last());
    }
    let mut result = String::new();
    let m = prefixed.len();
    let mut k: usize = 0;
    while k < m
        invariant
            m == prefixed@.len(),
            k <= m,
            result@ == prefixed@.take(k as int),
        decreases m - k,
    {
        push_char(&mut result, prefixed[k]);
        assert(result@ =~= prefixed@.take(k + 1));
        k = k + 1;
    }
    assert(result@ =~= prefixed@);
    assert(result@ == sanitized_name(name@));
    if m == 0 {
        return Err(
            LxdApiError::InvalidInput(
                owned("sandbox name produces empty instance name after sanitization"),
            ),
        );
    }
    proof {
        lemma_sanitized_is_canonical(name@);
        lemma_canonical_is_valid(result@);
    }
    // Final validation.
    match validate_instance_name(result.as_str()) {
        Ok(()) => Ok(result),
        Err(e) => Err(e),
    }
}


// ── Percent-encoding ─────────────────────────────────────────────────────

/// Bytes that stand for themselves in a query parameter value.
pub open spec fn is_unreserved(b: u8) -> bool {
    is_alnum_byte(b) || b == 0x2d || b == 0x5f || b == 0x2e || b == 0x7e
}

/// One byte, percent-encoded.
pub open spec fn encode_byte(b: u8) -> Seq<char> {
    if is_unreserved(b) {
        seq![b as char]
    } else {
        seq!['%', hex_char((b / 16) as nat), hex_char((b % 16) as nat)]
    }
}

/// A byte string, percent-encoded byte by byte.
pub open spec fn url_encoded(bytes: Seq<u8>) -> Seq<char>
    decreases bytes.len(),
{
    if bytes.len() == 0 {
        Seq::empty()
    } else {
        url_encoded(bytes.drop_last()) + encode_byte(bytes.last())
    }
}

/// Minimal percent-encoding for URL query parameter values: the bytes of
/// `s` that are ASCII letters, digits or one of `-_.~` are kept, every other
/// byte becomes `%` and two upper-case hexadecimal digits.
pub fn url_encode(s: &str) -> (r: String)
    ensures
        r@ == url_encoded(s.spec_bytes()),
{
    let bytes = s.as_bytes();
    let n = bytes.len();
    let mut out = String::new();
    let mut i: usize = 0;
    while i < n
        invariant
            n == bytes@.len(),
            i <= n,
            out@ == url_encoded(bytes@.take(i as int)),
        decreases n - i,
    {
        let b = bytes[i];
        proof {
            assert(bytes@.take(i + 1).drop_last() =~= bytes@.take(i as int));
        }
        if byte_is_alnum(b) || b == 0x2d || b == 0x5f || b == 0x2e || b == 0x7e {
            push_char(&mut out, b as char);
        } else {
            push_char(&mut out, '%');
            push_char(&mut out, hex_digit(b / 16));
            push_char(&mut out, hex_digit(b % 16));
        }
        assert(out@ =~= url_encoded(bytes@.take(i + 1)));
        i = i + 1;
    }
    assert(bytes@.take(n as int) =~= bytes@);
    out
}

/// The value of an upper-case hexadecimal digit.
pub open spec fn hex_value(c: char) -> int {
    if '0' <= c && c <= '9' {
        c as int - '0' as int
    } else {
        c as int - 'A' as int + 10
    }
}

/// Percent-decoding: `%` and two hexadecimal digits stand for one byte, any
/// other character for its own code.
pub open spec fn url_decoded(s: Seq<char>) -> Seq<u8>
    decreases s.len(),
{
    if s.len() == 0 {
        Seq::empty()
    } else if s[0] == '%' && s.len() >= 3 {
        seq![(hex_value(s[1]) * 16 + hex_value(s[2])) as u8] + url_decoded(s.skip(3))
    } else {
        seq![s[0] as u8] + url_decoded(s.skip(1))
    }
}

proof fn lemma_encoded_front(bytes: Seq<u8>)
    requires
        bytes.len() > 0,
    ensures
        url_encoded(bytes) == encode_byte(bytes[0]) + url_encoded(bytes.drop_first()),
    decreases bytes.len(),
{
    if bytes.len() == 1 {
        assert(bytes.drop_last() =~= Seq::<u8>::empty());
        assert(bytes.drop_first() =~= Seq::<u8>::empty());
        assert(url_encoded(bytes.drop_last()) =~= Seq::<char>::empty());
        assert(url_encoded(bytes.drop_first()) =~= Seq::<char>::empty());
        assert(url_encoded(bytes) =~= encode_byte(bytes[0]) + url_encoded(bytes.drop_first()));
    } else {
        lemma_encoded_front(bytes.drop_last());
        assert(bytes.drop_last().drop_first() =~= bytes.drop_first().drop_last());
        assert(bytes.drop_last()[0] == bytes[0]);
        assert(bytes.drop_first().last() == bytes.last());
        assert(url_encoded(bytes) =~= encode_byte(bytes[0]) + url_encoded(bytes.drop_first()));
    }
}

proof fn lemma_decode_byte(b: u8, rest: Seq<char>)
    ensures
        url_decoded(encode_byte(b) + rest) == seq![b] + url_decoded(rest),
{
    let e = encode_byte(b);
    if is_unreserved(b) {
        assert((e + rest).skip(1) =~= rest);
        assert(((b as char) as u8) == b);
    } else {
        let hi = (b / 16) as nat;
        let lo = (b % 16) as nat;
        assert((e + rest).skip(3) =~= rest);
        assert(hex_value(hex_char(hi)) == hi);
        assert(hex_value(hex_char(lo)) == lo);
        assert((hi * 16 + lo) as u8 == b);
    }
}

/// Percent-decoding undoes the encoding: decoding `url_encode(s)` gives the
/// bytes of `s` back.
pub proof fn url_encode_roundtrip(bytes: Seq<u8>)
    ensures
        url_decoded(url_encoded(bytes)) == bytes,
    decreases bytes.len(),
{
    if bytes.len() > 0 {
        lemma_encoded_front(bytes);
        lemma_decode_byte(bytes[0], url_encoded(bytes.drop_first()));
        url_encode_roundtrip(bytes.drop_first());
        assert(seq![bytes[0]] + bytes.drop_first() =~= bytes);
    }
}

/// Encoding a concatenation of bytes gives the concatenation of the
/// encodings.
pub proof fn url_encoded_concat(a: Seq<u8>, b: Seq<u8>)
    ensures
        url_encoded(a + b) == url_encoded(a) + url_encoded(b),
    decreases b.len(),
{
    if b.len() == 0 {
        assert(a + b =~= a);
        assert(url_encoded(a) + url_encoded(b) =~= url_encoded(a));
    } else {
        url_encoded_concat(a, b.drop_last());
        assert((a + b).drop_last() =~= a + b.drop_last());
        assert((a + b).last() == b.last());
        assert(url_encoded(a + b) =~= url_encoded(a) + url_encoded(b));
    }
}

proof fn lemma_encode_utf8_concat(a: Seq<char>, b: Seq<char>)
    ensures
        vstd::utf8::encode_utf8(a + b) == vstd::utf8::encode_utf8(a) + vstd::utf8::encode_utf8(b),
    decreases a.len(),
{
    if a.len() == 0 {
        assert(a + b =~= b);
        assert(vstd::utf8::encode_utf8(a) + vstd::utf8::encode_utf8(b) =~= vstd::utf8::encode_utf8(
            b,
        ));
    } else {
        lemma_encode_utf8_concat(a.drop_first(), b);
        assert((a + b).drop_first() =~= a.drop_first() + b);
        assert((a + b)[0] == a[0]);
        assert(vstd::utf8::encode_utf8(a + b) =~= vstd::utf8::encode_utf8(a)
            + vstd::utf8::encode_utf8(b));
    }
}

/// `url_encode` of two texts joined is the two encodings joined.
pub proof fn url_encode_of_concat(a: Seq<char>, b: Seq<char>)
    ensures
        url_encoded(vstd::utf8::encode_utf8(a + b)) == url_encoded(vstd::utf8::encode_utf8(a))
            + url_encoded(vstd::utf8::encode_utf8(b)),
{
    lemma_encode_utf8_concat(a, b);
    url_encoded_concat(vstd::utf8::encode_utf8(a), vstd::utf8::encode_utf8(b));
}

/// Every character of an encoding is an unreserved character, `%`, or an
/// upper-case hexadecimal digit.
pub open spec fn query_safe(s: Seq<char>) -> bool {
    forall|i: int|
        0 <= i < s.len() ==> is_alnum_char(#[trigger] s[i]) || s[i] == '-' || s[i] == '_' || s[i]
            == '.' || s[i] == '~' || s[i] == '%'
}

/// Encodings only hold characters that need no escaping in a query.
pub proof fn url_encoded_is_query_safe(bytes: Seq<u8>)
    ensures
        query_safe(url_encoded(bytes)),
    decreases bytes.len(),
{
    if bytes.len() > 0 {
        url_encoded_is_query_safe(bytes.drop_last());
        let p = url_encoded(bytes.drop_last());
        let e = encode_byte(bytes.last());
        assert forall|i: int| 0 <= i < (p + e).len() implies is_alnum_char(#[trigger] (p + e)[i])
            || (p + e)[i] == '-' || (p + e)[i] == '_' || (p + e)[i] == '.' || (p + e)[i] == '~'
            || (p + e)[i] == '%' by {
            if i >= p.len() {
                let b = bytes.last();
                if is_unreserved(b) {
                    assert((p + e)[i] == b as char);
                }
            }
        }
    }
}


// ── Responses ────────────────────────────────────────────────────────────

/// The LXD REST API version prefix.
pub const API_PREFIX: &'static str = "/1.0";

/// The default timeout for individual LXD API calls, in seconds.
pub const API_TIMEOUT_SECS: u64 = 30;

/// An HTTP status in the success class.
pub open spec fn is_success_status(status: u16) -> bool {
    200 <= status <= 299
}

/// The error for a status code: 404 is "not found", 409 a conflict, any
/// other an API error that carries the code.
pub open spec fn status_error(status: u16, message: Seq<char>) -> ApiErrorView {
    if status == 404 {
        ApiErrorView::NotFound(message)
    } else if status == 409 {
        ApiErrorView::Conflict(message)
    } else {
        ApiErrorView::Api { status, message }
    }
}

/// The text of the top-level string member `error` of the JSON document in
/// `bytes`; none when the bytes are not JSON, not an object, or the member
/// is missing or not a string.
pub uninterp spec fn json_error_member(bytes: Seq<u8>) -> Option<Seq<char>>;

/// `String::from_utf8_lossy`: the text of the bytes, with each invalid
/// sequence replaced by U+FFFD.
pub uninterp spec fn utf8_lossy(bytes: Seq<u8>) -> Seq<char>;

/// Reads the `error` member of an LXD error body with
/// `serde_json::from_slice::<serde_json::Value>`, `Value::get` and
/// `Value::as_str`. Claimed: the result is `json_error_member` of the bytes.
#[verifier::external_body]
fn json_error_field(bytes: &[u8]) -> (r: Option<String>)
    ensures
        match r {
            Some(m) => json_error_member(bytes@) == Some(m@),
            None => json_error_member(bytes@) is None,
        },
{
    serde_json::from_slice::<serde_json::Value>(bytes).ok().and_then(
        |v| v.get("error").and_then(serde_json::Value::as_str).map(String::from),
    )
}

/// `String::from_utf8_lossy`. Claimed: the result is `utf8_lossy` of the
/// bytes, and for valid UTF-8 it is the decoded text itself (std's
/// documentation: valid input is returned as it is).
#[verifier::external_body]
pub(crate) fn lossy_text(bytes: &[u8]) -> (r: String)
    ensures
        r@ == utf8_lossy(bytes@),
        vstd::utf8::valid_utf8(bytes@) ==> r@ == vstd::utf8::decode_utf8(bytes@),
{
    String::from_utf8_lossy(bytes).into_owned()
}

/// The message of an error body: its non-empty `error` member, else the
/// body's text.
pub open spec fn error_message_of(bytes: Seq<u8>) -> Seq<char> {
    match json_error_member(bytes) {
        Some(m) => if m.len() > 0 {
            m
        } else {
            utf8_lossy(bytes)
        },
        None => utf8_lossy(bytes),
    }
}

/// The error for a failed HTTP exchange.
pub fn parse_error(status: u16, bytes: &[u8]) -> (e: LxdApiError)
    ensures
        e@ == status_error(status, error_message_of(bytes@)),
{
    let message = match json_error_field(bytes) {
        Some(m) => if m.as_str().is_empty() {
            lossy_text(bytes)
        } else {
            m
        },
        None => lossy_text(bytes),
    };
    if status == 404 {
        LxdApiError::NotFound(message)
    } else if status == 409 {
        LxdApiError::Conflict(message)
    } else {
        LxdApiError::Api { status, message }
    }
}

/// Whether an HTTP exchange may carry a response envelope: a success status,
/// or 202; otherwise the error it reports.
pub fn check_http_status(status: u16, bytes: &[u8]) -> (r: Result<(), LxdApiError>)
    ensures
        r is Ok <==> is_success_status(status) || status == 202,
        r matches Err(e) ==> e@ == status_error(status, error_message_of(bytes@)),
{
    if !(200 <= status && status <= 299) && status != 202 {
        return Err(parse_error(status, bytes));
    }
    Ok(())
}

/// Returns an error if the envelope has type "error".
pub fn check_error(env: &LxdResponse) -> (r: Result<(), LxdApiError>)
    ensures
        r is Ok <==> env.response_type@ != "error"@,
        r matches Err(e) ==> e@ == (ApiErrorView::Api {
            status: env.error_code,
            message: env.error@,
        }),
{
    if str_eq(env.response_type.as_str(), "error") {
        Err(LxdApiError::Api { status: env.error_code, message: env.error.clone() })
    } else {
        Ok(())
    }
}

/// The metadata of a sync response, which must be present.
pub fn require_metadata<T>(metadata: Option<T>) -> (r: Result<T, LxdApiError>)
    ensures
        match metadata {
            Some(m) => r == Ok::<T, LxdApiError>(m),
            None => (r matches Err(e) && e@ == ApiErrorView::Json(
                "missing metadata in sync response"@,
            )),
        },
{
    match metadata {
        Some(m) => Ok(m),
        None => Err(LxdApiError::Json(owned("missing metadata in sync response"))),
    }
}

/// The outcome of a file upload (a file or a directory): success, or the
/// error the response reports.
pub fn push_outcome(status: u16, bytes: &[u8]) -> (r: Result<(), LxdApiError>)
    ensures
        r is Ok <==> is_success_status(status),
        r matches Err(e) ==> e@ == status_error(status, error_message_of(bytes@)),
{
    if 200 <= status && status <= 299 {
        Ok(())
    } else {
        Err(parse_error(status, bytes))
    }
}

/// The outcome of asking whether a file exists: 200 means yes, 404 means
/// no, any other status is an error.
pub fn file_exists_outcome(status: u16, remote_path: &str) -> (r: Result<bool, LxdApiError>)
    ensures
        status == 200 ==> r == Ok::<bool, LxdApiError>(true),
        status == 404 ==> r == Ok::<bool, LxdApiError>(false),
        status != 200 && status != 404 ==> (r matches Err(e) && e@ == (ApiErrorView::Api {
            status,
            message: "unexpected status checking file "@ + remote_path@,
        })),
{
    if status == 200 {
        Ok(true)
    } else if status == 404 {
        Ok(false)
    } else {
        let mut message = owned("unexpected status checking file ");
        append_str(&mut message, remote_path);
        Err(LxdApiError::Api { status, message })
    }
}

// ── Requests ─────────────────────────────────────────────────────────────

/// The files endpoint of an instance for a path inside it.
pub open spec fn files_path_spec(instance: Seq<char>, remote: Seq<char>, project: Seq<char>) -> Seq<
    char,
> {
    "/1.0"@ + "/instances/"@ + instance + "/files?path="@ + url_encoded(
        vstd::utf8::encode_utf8(remote),
    ) + "&project="@ + project
}

/// `{API_PREFIX}/instances/{instance}/files?path={encoded path}&project={project}`.
pub fn files_path(instance_name: &str, remote_path: &str, project: &str) -> (r: String)
    ensures
        r@ == files_path_spec(instance_name@, remote_path@, project@),
{
    let encoded = url_encode(remote_path);
    let mut p = owned(API_PREFIX);
    append_str(&mut p, "/instances/");
    append_str(&mut p, instance_name);
    append_str(&mut p, "/files?path=");
    append_str(&mut p, encoded.as_str());
    append_str(&mut p, "&project=");
    append_str(&mut p, project);
    p
}

/// The text of a list of headers.
pub open spec fn header_views(h: Seq<(String, String)>) -> Seq<(Seq<char>, Seq<char>)> {
    h.map_values(|p: (String, String)| (p.0@, p.1@))
}

/// Headers for uploading a file: owner, group, mode in four octal digits,
/// type "file", and an octet-stream body.
pub fn push_file_headers(uid: u32, gid: u32, mode: u32) -> (r: Vec<(String, String)>)
    ensures
        header_views(r@) == seq![
            ("X-LXD-uid"@, dec_string(uid as nat)),
            ("X-LXD-gid"@, dec_string(gid as nat)),
            ("X-LXD-mode"@, zero_padded(oct_string(mode as nat), 4)),
            ("X-LXD-type"@, "file"@),
            ("Content-Type"@, "application/octet-stream"@),
        ],
{
    let mut h: Vec<(String, String)> = Vec::new();
    h.push((owned("X-LXD-uid"), crate::text::decimal(uid as u64)));
    h.push((owned("X-LXD-gid"), crate::text::decimal(gid as u64)));
    h.push((owned("X-LXD-mode"), octal4(mode)));
    h.push((owned("X-LXD-type"), owned("file")));
    h.push((owned("Content-Type"), owned("application/octet-stream")));
    assert(header_views(h@) =~= seq![
        ("X-LXD-uid"@, dec_string(uid as nat)),
        ("X-LXD-gid"@, dec_string(gid as nat)),
        ("X-LXD-mode"@, zero_padded(oct_string(mode as nat), 4)),
        ("X-LXD-type"@, "file"@),
        ("Content-Type"@, "application/octet-stream"@),
    ]);
    h
}

/// Headers for creating a directory owned by root with the given mode.
pub fn push_dir_headers(mode: u32) -> (r: Vec<(String, String)>)
    ensures
        header_views(r@) == seq![
            ("X-LXD-uid"@, "0"@),
            ("X-LXD-gid"@, "0"@),
            ("X-LXD-mode"@, zero_padded(oct_string(mode as nat), 4)),
            ("X-LXD-type"@, "directory"@),
        ],
{
    let mut h: Vec<(String, String)> = Vec::new();
    h.push((owned("X-LXD-uid"), owned("0")));
    h.push((owned("X-LXD-gid"), owned("0")));
    h.push((owned("X-LXD-mode"), octal4(mode)));
    h.push((owned("X-LXD-type"), owned("directory")));
    assert(header_views(h@) =~= seq![
        ("X-LXD-uid"@, "0"@),
        ("X-LXD-gid"@, "0"@),
        ("X-LXD-mode"@, zero_padded(oct_string(mode as nat), 4)),
        ("X-LXD-type"@, "directory"@),
    ]);
    h
}

/// Headers of a JSON request: a content type when a body goes along.
pub fn envelope_headers(has_body: bool) -> (r: Vec<(String, String)>)
    ensures
        has_body ==> header_views(r@) == seq![("Content-Type"@, "application/json"@)],
        !has_body ==> r@.len() == 0,
{
    let mut h: Vec<(String, String)> = Vec::new();
    if has_body {
        h.push((owned("Content-Type"), owned("application/json")));
        assert(header_views(h@) =~= seq![("Content-Type"@, "application/json"@)]);
    }
    h
}

/// Async LXD REST API client communicating over a Unix socket.
#[derive(Debug)]
pub struct LxdClient {
    socket_path: String,
}

impl LxdClient {
    /// Creates a new client targeting the given LXD Unix socket.
    pub fn new(socket_path: String) -> (c: Self)
        ensures
            c.spec_socket_path() == socket_path@,
    {
        LxdClient { socket_path }
    }

    pub closed spec fn spec_socket_path(&self) -> Seq<char> {
        self.socket_path@
    }

    /// The socket this client talks to.
    pub fn socket_path(&self) -> (r: &str)
        ensures
            r@ == self.spec_socket_path(),
    {
        self.socket_path.as_str()
    }
}

} // verus!
