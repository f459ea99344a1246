//! The JSON wire codec for signaling envelopes.
//!
//! A client frame is one JSON object with a `"type"` discriminator; its
//! members may come in any order, unknown members are ignored, and the
//! `offer` / `answer` / `candidate` member is kept as the raw bytes of the
//! JSON value exactly as it appeared on the wire. Server envelopes are
//! encoded to compact JSON with the discriminator first.

use vstd::prelude::*;
use vstd::utf8::encode_utf8;

use crate::bytes::{bytes_eq, copy_range};
use crate::envelope::{
    ClientEnvelope, ClientEnvelopeModel, RouteKind, ServerEnvelope, ServerEnvelopeModel, UserInfo,
    UserInfoModel,
};
use crate::json::{
    skip_ws, spec_parse_string, spec_parse_value, spec_skip_ws, COLON, COMMA, DEPTH_LIMIT, LBRACE,
    QUOTE, RBRACE,
};

verus! {

/// The member values a client frame may carry, collected while its object
/// is scanned.
#[verifier::ext_equal]
pub struct FrameFields {
    pub tag: Option<Seq<u8>>,
    pub display_name: Option<Seq<u8>>,
    pub target_user_id: Option<Seq<u8>>,
    pub offer: Option<Seq<u8>>,
    pub answer: Option<Seq<u8>>,
    pub candidate: Option<Seq<u8>>,
}

/// No member seen yet.
pub open spec fn empty_fields() -> FrameFields {
    FrameFields {
        tag: None,
        display_name: None,
        target_user_id: None,
        offer: None,
        answer: None,
        candidate: None,
    }
}

/// The members whose value must be a JSON string.
pub open spec fn is_string_key(key: Seq<u8>) -> bool {
    key == encode_utf8("type"@) || key == encode_utf8("display_name"@) || key == encode_utf8(
        "target_user_id"@,
    )
}

/// Record a string-valued member; a duplicate of a tracked member rejects
/// the frame.
pub open spec fn spec_store_string(
    acc: FrameFields,
    key: Seq<u8>,
    content: Seq<u8>,
) -> Option<FrameFields> {
    if key == encode_utf8("type"@) {
        if acc.tag is Some {
            None
        } else {
            Some(FrameFields { tag: Some(content), ..acc })
        }
    } else if key == encode_utf8("display_name"@) {
        if acc.display_name is Some {
            None
        } else {
            Some(FrameFields { display_name: Some(content), ..acc })
        }
    } else {
        if acc.target_user_id is Some {
            None
        } else {
            Some(FrameFields { target_user_id: Some(content), ..acc })
        }
    }
}

/// Record a payload member as its raw bytes; members with other names are
/// ignored.
pub open spec fn spec_store_payload(
    acc: FrameFields,
    key: Seq<u8>,
    raw: Seq<u8>,
) -> Option<FrameFields> {
    if key == encode_utf8("offer"@) {
        if acc.offer is Some {
            None
        } else {
            Some(FrameFields { offer: Some(raw), ..acc })
        }
    } else if key == encode_utf8("answer"@) {
        if acc.answer is Some {
            None
        } else {
            Some(FrameFields { answer: Some(raw), ..acc })
        }
    } else if key == encode_utf8("candidate"@) {
        if acc.candidate is Some {
            None
        } else {
            Some(FrameFields { candidate: Some(raw), ..acc })
        }
    } else {
        Some(acc)
    }
}

/// Scan the members of the frame object from `i` (standing on the closing
/// brace or on a member key), collecting tracked members into `acc`.
/// Returns the position after the closing brace and the collected members.
pub open spec fn spec_parse_fields(
    s: Seq<u8>,
    i: int,
    acc: FrameFields,
    first: bool,
) -> Option<(int, FrameFields)>
    decreases s.len() - i,
{
    if i < 0 || i >= s.len() {
        None
    } else if first && s[i] == RBRACE {
        Some((i + 1, acc))
    } else if s[i] == QUOTE {
        match spec_parse_string(s, i + 1) {
            None => None,
            Some((after_key, key)) => {
                let c = spec_skip_ws(s, after_key);
                if c < s.len() && s[c] == COLON {
                    let v = spec_skip_ws(s, c + 1);
                    if i < v && v < s.len() {
                        if is_string_key(key) {
                            if s[v] == QUOTE {
                                match spec_parse_string(s, v + 1) {
                                    None => None,
                                    Some((after_val, content)) => match spec_store_string(
                                        acc,
                                        key,
                                        content,
                                    ) {
                                        None => None,
                                        Some(acc2) => {
                                            let w = spec_skip_ws(s, after_val);
                                            if w < s.len() && s[w] == COMMA {
                                                let next = spec_skip_ws(s, w + 1);
                                                if i < next <= s.len() {
                                                    spec_parse_fields(s, next, acc2, false)
                                                } else {
                                                    None
                                                }
                                            } else if w < s.len() && s[w] == RBRACE {
                                                Some((w + 1, acc2))
                                            } else {
                                                None
                                            }
                                        },
                                    },
                                }
                            } else {
                                None
                            }
                        } else {
                            match spec_parse_value(s, v, (DEPTH_LIMIT - 1) as nat) {
                                None => None,
                                Some(after_val) => match spec_store_payload(
                                    acc,
                                    key,
                                    s.subrange(v, after_val),
                                ) {
                                    None => None,
                                    Some(acc2) => {
                                        let w = spec_skip_ws(s, after_val);
                                        if w < s.len() && s[w] == COMMA {
                                            let next = spec_skip_ws(s, w + 1);
                                            if i < next <= s.len() {
                                                spec_parse_fields(s, next, acc2, false)
                                            } else {
                                                None
                                            }
                                        } else if w < s.len() && s[w] == RBRACE {
                                            Some((w + 1, acc2))
                                        } else {
                                            None
                                        }
                                    },
                                },
                            }
                        }
                    } else {
                        None
                    }
                } else {
                    None
                }
            },
        }
    } else {
        None
    }
}

/// Build the envelope denoted by the collected members and the `"type"`
/// discriminator; a missing required member rejects the frame.
pub open spec fn spec_finalize(f: FrameFields) -> Option<ClientEnvelopeModel> {
    match f.tag {
        None => None,
        Some(tag) => {
            if tag == encode_utf8("register"@) {
                match f.display_name {
                    None => None,
                    Some(name) => Some(ClientEnvelopeModel::Register { display_name: name }),
                }
            } else if tag == encode_utf8("discover"@) {
                Some(ClientEnvelopeModel::Discover)
            } else if tag == encode_utf8("offer"@) {
                if f.target_user_id is Some && f.offer is Some {
                    Some(
                        ClientEnvelopeModel::Route {
                            kind: RouteKind::Offer,
                            target_user_id: f.target_user_id->0,
                            payload: f.offer->0,
                        },
                    )
                } else {
                    None
                }
            } else if tag == encode_utf8("answer"@) {
                if f.target_user_id is Some && f.answer is Some {
                    Some(
                        ClientEnvelopeModel::Route {
                            kind: RouteKind::Answer,
                            target_user_id: f.target_user_id->0,
                            payload: f.answer->0,
                        },
                    )
                } else {
                    None
                }
            } else if tag == encode_utf8("ice_candidate"@) {
                if f.target_user_id is Some && f.candidate is Some {
                    Some(
                        ClientEnvelopeModel::Route {
                            kind: RouteKind::IceCandidate,
                            target_user_id: f.target_user_id->0,
                            payload: f.candidate->0,
                        },
                    )
                } else {
                    None
                }
            } else {
                None
            }
        },
    }
}

/// Meaning of one whole text frame: one JSON object, nothing but
/// whitespace around it.
pub open spec fn spec_parse_frame(s: Seq<u8>) -> Option<ClientEnvelopeModel> {
    let start = spec_skip_ws(s, 0);
    if 0 <= start && start < s.len() && s[start] == LBRACE {
        match spec_parse_fields(s, spec_skip_ws(s, start + 1), empty_fields(), true) {
            None => None,
            Some((end, fields)) => {
                if spec_skip_ws(s, end) == s.len() {
                    spec_finalize(fields)
                } else {
                    None
                }
            },
        }
    } else {
        None
    }
}

/// Executable collector for the frame members.
struct FieldsBuf {
    tag: Option<Vec<u8>>,
    display_name: Option<Vec<u8>>,
    target_user_id: Option<Vec<u8>>,
    offer: Option<Vec<u8>>,
    answer: Option<Vec<u8>>,
    candidate: Option<Vec<u8>>,
}

pub open spec fn opt_bytes_view(o: Option<Vec<u8>>) -> Option<Seq<u8>> {
    match o {
        None => None,
        Some(v) => Some(v@),
    }
}

impl View for FieldsBuf {
    type V = FrameFields;

    closed spec fn view(&self) -> FrameFields {
        FrameFields {
            tag: opt_bytes_view(self.tag),
            display_name: opt_bytes_view(self.display_name),
            target_user_id: opt_bytes_view(self.target_user_id),
            offer: opt_bytes_view(self.offer),
            answer: opt_bytes_view(self.answer),
            candidate: opt_bytes_view(self.candidate),
        }
    }
}

/// Executable scan of the frame object's members.
fn parse_fields(s: &[u8], i: usize) -> (r: Option<(usize, FieldsBuf)>)
    requires
        i <= s.len(),
    ensures
        match r {
            Some(p) => spec_parse_fields(s@, i as int, empty_fields(), true) == Some(
                (p.0 as int, p.1@),
            ) && p.0 <= s.len(),
            None => spec_parse_fields(s@, i as int, empty_fields(), true) is None,
        },
{
    let mut cur: usize = i;
    let mut fst: bool = true;
    let mut fields = FieldsBuf {
        tag: None,
        display_name: None,
        target_user_id: None,
        offer: None,
        answer: None,
        candidate: None,
    };
    proof {
        assert(fields@ =~= empty_fields());
    }
    loop
        invariant
            i <= cur <= s.len(),
            spec_parse_fields(s@, i as int, empty_fields(), true) == spec_parse_fields(
                s@,
                cur as int,
                fields@,
                fst,
            ),
        decreases s.len() - cur,
    {
        if cur >= s.len() {
            return None;
        }
        if fst && s[cur] == RBRACE {
            return Some((cur + 1, fields));
        }
        if s[cur] != QUOTE {
            return None;
        }
        let (after_key, key) = match crate::json::parse_string(s, cur + 1) {
            None => {
                return None;
            },
            Some(p) => p,
        };
        let c = skip_ws(s, after_key);
        if c >= s.len() || s[c] != COLON {
            return None;
        }
        let v = skip_ws(s, c + 1);
        if !(cur < v && v < s.len()) {
            return None;
        }
        let after_val: usize;
        if bytes_eq(key.as_slice(), "type".as_bytes()) || bytes_eq(
            key.as_slice(),
            "display_name".as_bytes(),
        ) || bytes_eq(key.as_slice(), "target_user_id".as_bytes()) {
            if s[v] != QUOTE {
                return None;
            }
            let (av, content) = match crate::json::parse_string(s, v + 1) {
                None => {
                    return None;
                },
                Some(p) => p,
            };
            after_val = av;
            if bytes_eq(key.as_slice(), "type".as_bytes()) {
                if fields.tag.is_some() {
                    return None;
                }
                fields.tag = Some(content);
            } else if bytes_eq(key.as_slice(), "display_name".as_bytes()) {
                if fields.display_name.is_some() {
                    return None;
                }
                fields.display_name = Some(content);
            } else {
                if fields.target_user_id.is_some() {
                    return None;
                }
                fields.target_user_id = Some(content);
            }
        } else {
            let av = match crate::json::parse_value(s, v, DEPTH_LIMIT - 1) {
                None => {
                    return None;
                },
                Some(e) => e,
            };
            after_val = av;
            if bytes_eq(key.as_slice(), "offer".as_bytes()) {
                if fields.offer.is_some() {
                    return None;
                }
                fields.offer = Some(copy_range(s, v, av));
            } else if bytes_eq(key.as_slice(), "answer".as_bytes()) {
                if fields.answer.is_some() {
                    return None;
                }
                fields.answer = Some(copy_range(s, v, av));
            } else if bytes_eq(key.as_slice(), "candidate".as_bytes()) {
                if fields.candidate.is_some() {
                    return None;
                }
                fields.candidate = Some(copy_range(s, v, av));
            }
        }
        let w = skip_ws(s, after_val);
        if w < s.len() && s[w] == COMMA {
            let next = skip_ws(s, w + 1);
            if !(cur < next) {
                return None;
            }
            cur = next;
            fst = false;
        } else if w < s.len() && s[w] == RBRACE {
            return Some((w + 1, fields));
        } else {
            return None;
        }
    }
}

/// Why a frame was rejected, surfaced to the peer as the reason behind
/// the "Invalid message format: …" error.
#[derive(Clone, Copy, PartialEq, Eq, Structural, Debug)]
pub enum ParseFault {
    /// The frame is not one well-formed JSON object (or a tracked member
    /// is duplicated or of the wrong shape).
    MalformedJson,
    /// The object carries no `"type"` member.
    MissingType,
    /// The `"type"` discriminator names no known envelope.
    UnknownType,
    /// The discriminator is known but a member it requires is absent.
    MissingField,
}

/// A `"type"` value some envelope is denoted by.
pub open spec fn is_known_tag(tag: Seq<u8>) -> bool {
    tag == encode_utf8("register"@) || tag == encode_utf8("discover"@) || tag == encode_utf8(
        "offer"@,
    ) || tag == encode_utf8("answer"@) || tag == encode_utf8("ice_candidate"@)
}

/// The reason a rejected frame was rejected (meaningful when
/// [`spec_parse_frame`] is `None`).
pub open spec fn spec_parse_fault(s: Seq<u8>) -> ParseFault {
    let start = spec_skip_ws(s, 0);
    if !(0 <= start && start < s.len() && s[start] == LBRACE) {
        ParseFault::MalformedJson
    } else {
        match spec_parse_fields(s, spec_skip_ws(s, start + 1), empty_fields(), true) {
            None => ParseFault::MalformedJson,
            Some((end, fields)) => {
                if spec_skip_ws(s, end) != s.len() {
                    ParseFault::MalformedJson
                } else {
                    match fields.tag {
                        None => ParseFault::MissingType,
                        Some(tag) => if is_known_tag(tag) {
                            ParseFault::MissingField
                        } else {
                            ParseFault::UnknownType
                        },
                    }
                }
            },
        }
    }
}

/// Decode one text frame into a client envelope; an `Err` rejects the
/// frame as a protocol error and says why.
pub fn parse_client_frame(frame: &[u8]) -> (r: Result<ClientEnvelope, ParseFault>)
    ensures
        match r {
            Ok(env) => spec_parse_frame(frame@) == Some(env@),
            Err(fault) => spec_parse_frame(frame@) is None && fault == spec_parse_fault(frame@),
        },
{
    let start = skip_ws(frame, 0);
    if start >= frame.len() || frame[start] != LBRACE {
        return Err(ParseFault::MalformedJson);
    }
    let begin = skip_ws(frame, start + 1);
    let (end, fields) = match parse_fields(frame, begin) {
        None => {
            return Err(ParseFault::MalformedJson);
        },
        Some(p) => p,
    };
    if skip_ws(frame, end) != frame.len() {
        return Err(ParseFault::MalformedJson);
    }
    let tag = match fields.tag {
        None => {
            return Err(ParseFault::MissingType);
        },
        Some(t) => t,
    };
    if bytes_eq(tag.as_slice(), "register".as_bytes()) {
        match fields.display_name {
            None => Err(ParseFault::MissingField),
            Some(name) => Ok(ClientEnvelope::Register { display_name: name }),
        }
    } else if bytes_eq(tag.as_slice(), "discover".as_bytes()) {
        Ok(ClientEnvelope::Discover)
    } else if bytes_eq(tag.as_slice(), "offer".as_bytes()) {
        match (fields.target_user_id, fields.offer) {
            (Some(t), Some(p)) => Ok(
                ClientEnvelope::Route { kind: RouteKind::Offer, target_user_id: t, payload: p },
            ),
            _ => Err(ParseFault::MissingField),
        }
    } else if bytes_eq(tag.as_slice(), "answer".as_bytes()) {
        match (fields.target_user_id, fields.answer) {
            (Some(t), Some(p)) => Ok(
                ClientEnvelope::Route { kind: RouteKind::Answer, target_user_id: t, payload: p },
            ),
            _ => Err(ParseFault::MissingField),
        }
    } else if bytes_eq(tag.as_slice(), "ice_candidate".as_bytes()) {
        match (fields.target_user_id, fields.candidate) {
            (Some(t), Some(p)) => Ok(
                ClientEnvelope::Route {
                    kind: RouteKind::IceCandidate,
                    target_user_id: t,
                    payload: p,
                },
            ),
            _ => Err(ParseFault::MissingField),
        }
    } else {
        Err(ParseFault::UnknownType)
    }
}

/// Lowercase hexadecimal digit for a value below 16.
pub open spec fn spec_hexdig(n: u8) -> u8 {
    if n < 10 {
        (48 + n) as u8
    } else {
        (97 + n - 10) as u8
    }
}

/// JSON escaping of one byte of string content: quote and backslash are
/// escaped, control bytes get their short escape or a `\u00XX` form, and
/// every other byte passes through.
pub open spec fn spec_escape_byte(b: u8) -> Seq<u8> {
    if b == QUOTE {
        seq![crate::json::BACKSLASH, QUOTE]
    } else if b == crate::json::BACKSLASH {
        seq![crate::json::BACKSLASH, crate::json::BACKSLASH]
    } else if b == 8 {
        seq![crate::json::BACKSLASH, crate::json::LOWER_B]
    } else if b == 9 {
        seq![crate::json::BACKSLASH, crate::json::LOWER_T]
    } else if b == 10 {
        seq![crate::json::BACKSLASH, crate::json::LOWER_N]
    } else if b == 12 {
        seq![crate::json::BACKSLASH, crate::json::LOWER_F]
    } else if b == 13 {
        seq![crate::json::BACKSLASH, crate::json::LOWER_R]
    } else if b < 32 {
        seq![
            crate::json::BACKSLASH,
            crate::json::LOWER_U,
            crate::json::DIGIT_0,
            crate::json::DIGIT_0,
            spec_hexdig(b / 16),
            spec_hexdig(b % 16),
        ]
    } else {
        seq![b]
    }
}

/// JSON escaping of string content.
pub open spec fn spec_escape_bytes(s: Seq<u8>) -> Seq<u8>
    decreases s.len(),
{
    if s.len() == 0 {
        Seq::empty()
    } else {
        spec_escape_byte(s[0]) + spec_escape_bytes(s.drop_first())
    }
}

/// Escaping distributes over appending one byte at the end.
pub proof fn lemma_escape_snoc(s: Seq<u8>)
    requires
        s.len() > 0,
    ensures
        spec_escape_bytes(s) == spec_escape_bytes(s.drop_last()) + spec_escape_byte(s.last()),
    decreases s.len(),
{
    assert(spec_escape_bytes(s) == spec_escape_byte(s[0]) + spec_escape_bytes(s.drop_first()));
    if s.len() == 1 {
        assert(s.drop_last() =~= Seq::<u8>::empty());
        assert(s.drop_first() =~= Seq::<u8>::empty());
        assert(spec_escape_bytes(Seq::<u8>::empty()) == Seq::<u8>::empty());
        assert(spec_escape_bytes(s) =~= spec_escape_bytes(s.drop_last()) + spec_escape_byte(
            s.last(),
        ));
    } else {
        lemma_escape_snoc(s.drop_first());
        assert(s.drop_first().drop_last() =~= s.drop_last().drop_first());
        assert(s.drop_last()[0] == s[0]);
        assert(s.drop_first().last() == s.last());
        assert(s.drop_last().len() > 0);
        assert(spec_escape_bytes(s.drop_last()) == spec_escape_byte(s[0]) + spec_escape_bytes(
            s.drop_last().drop_first(),
        ));
        assert(spec_escape_bytes(s) == spec_escape_byte(s[0]) + (spec_escape_bytes(
            s.drop_last().drop_first(),
        ) + spec_escape_byte(s.last())));
        assert(spec_escape_bytes(s) =~= spec_escape_bytes(s.drop_last()) + spec_escape_byte(
            s.last(),
        ));
    }
}

/// A quoted, escaped JSON string literal.
pub open spec fn spec_quoted(content: Seq<u8>) -> Seq<u8> {
    seq![QUOTE] + spec_escape_bytes(content) + seq![QUOTE]
}

/// One roster entry as JSON.
pub open spec fn spec_user_json(u: UserInfoModel) -> Seq<u8> {
    encode_utf8("{\"user_id\":"@) + spec_quoted(u.user_id) + encode_utf8(",\"display_name\":"@)
        + spec_quoted(u.display_name) + encode_utf8("}"@)
}

/// The roster entries as a comma-separated JSON array body.
pub open spec fn spec_users_array(users: Seq<UserInfoModel>) -> Seq<u8>
    decreases users.len(),
{
    if users.len() == 0 {
        Seq::empty()
    } else if users.len() == 1 {
        spec_user_json(users[0])
    } else {
        spec_users_array(users.drop_last()) + seq![COMMA] + spec_user_json(users.last())
    }
}

/// The fixed bytes before the sender identity of a routed envelope.
pub open spec fn spec_routed_prefix(kind: RouteKind) -> Seq<u8> {
    match kind {
        RouteKind::Offer => encode_utf8("{\"type\":\"offer\",\"from_user_id\":"@),
        RouteKind::Answer => encode_utf8("{\"type\":\"answer\",\"from_user_id\":"@),
        RouteKind::IceCandidate => encode_utf8("{\"type\":\"ice_candidate\",\"from_user_id\":"@),
    }
}

/// The fixed bytes between the sender identity and the payload of a routed
/// envelope.
pub open spec fn spec_routed_key(kind: RouteKind) -> Seq<u8> {
    match kind {
        RouteKind::Offer => encode_utf8(",\"offer\":"@),
        RouteKind::Answer => encode_utf8(",\"answer\":"@),
        RouteKind::IceCandidate => encode_utf8(",\"candidate\":"@),
    }
}

/// The bytes of one server envelope on the wire: compact JSON with the
/// discriminator first, and a routed payload embedded verbatim.
pub open spec fn spec_serialize_server(e: ServerEnvelopeModel) -> Seq<u8> {
    match e {
        ServerEnvelopeModel::Registered { user_id } => encode_utf8(
            "{\"type\":\"registered\",\"user_id\":"@,
        ) + spec_quoted(user_id) + encode_utf8("}"@),
        ServerEnvelopeModel::UserList { users } => encode_utf8(
            "{\"type\":\"user_list\",\"users\":["@,
        ) + spec_users_array(users) + encode_utf8("]}"@),
        ServerEnvelopeModel::UserJoined { user_id, display_name } => encode_utf8(
            "{\"type\":\"user_joined\",\"user_id\":"@,
        ) + spec_quoted(user_id) + encode_utf8(",\"display_name\":"@) + spec_quoted(display_name)
            + encode_utf8("}"@),
        ServerEnvelopeModel::UserLeft { user_id } => encode_utf8(
            "{\"type\":\"user_left\",\"user_id\":"@,
        ) + spec_quoted(user_id) + encode_utf8("}"@),
        ServerEnvelopeModel::Routed { kind, from_user_id, payload } => spec_routed_prefix(kind)
            + spec_quoted(from_user_id) + spec_routed_key(kind) + payload + encode_utf8("}"@),
        ServerEnvelopeModel::Error { message } => encode_utf8("{\"type\":\"error\",\"message\":"@)
            + spec_quoted(message) + encode_utf8("}"@),
    }
}

/// Append the escaped form of one content byte to `out`.
fn escape_one(out: &mut Vec<u8>, b: u8)
    ensures
        final(out)@ == old(out)@ + spec_escape_byte(b),
{
    if b == QUOTE || b == crate::json::BACKSLASH {
        out.push(crate::json::BACKSLASH);
        out.push(b);
        proof {
            assert(out@ =~= old(out)@ + spec_escape_byte(b));
        }
    } else if b == 8 {
        out.push(crate::json::BACKSLASH);
        out.push(crate::json::LOWER_B);
        proof {
            assert(out@ =~= old(out)@ + spec_escape_byte(b));
        }
    } else if b == 9 {
        out.push(crate::json::BACKSLASH);
        out.push(crate::json::LOWER_T);
        proof {
            assert(out@ =~= old(out)@ + spec_escape_byte(b));
        }
    } else if b == 10 {
        out.push(crate::json::BACKSLASH);
        out.push(crate::json::LOWER_N);
        proof {
            assert(out@ =~= old(out)@ + spec_escape_byte(b));
        }
    } else if b == 12 {
        out.push(crate::json::BACKSLASH);
        out.push(crate::json::LOWER_F);
        proof {
            assert(out@ =~= old(out)@ + spec_escape_byte(b));
        }
    } else if b == 13 {
        out.push(crate::json::BACKSLASH);
        out.push(crate::json::LOWER_R);
        proof {
            assert(out@ =~= old(out)@ + spec_escape_byte(b));
        }
    } else if b < 32 {
        out.push(crate::json::BACKSLASH);
        out.push(crate::json::LOWER_U);
        out.push(crate::json::DIGIT_0);
        out.push(crate::json::DIGIT_0);
        let hi = b / 16;
        let lo = b % 16;
        out.push(
            if hi < 10 {
                48 + hi
            } else {
                97 + hi - 10
            },
        );
        out.push(
            if lo < 10 {
                48 + lo
            } else {
                97 + lo - 10
            },
        );
        proof {
            assert(out@ =~= old(out)@ + spec_escape_byte(b));
        }
    } else {
        out.push(b);
        proof {
            assert(out@ =~= old(out)@ + spec_escape_byte(b));
        }
    }
}

/// Append the escaped form of `s` to `out`.
fn escape_into(out: &mut Vec<u8>, s: &[u8])
    ensures
        final(out)@ == old(out)@ + spec_escape_bytes(s@),
{
    let mut i: usize = 0;
    while i < s.len()
        invariant
            i <= s.len(),
            out@ == old(out)@ + spec_escape_bytes(s@.take(i as int)),
        decreases s.len() - i,
    {
        escape_one(out, s[i]);
        i = i + 1;
        proof {
            lemma_escape_snoc(s@.take(i as int));
            assert(s@.take(i as int).drop_last() =~= s@.take(i as int - 1));
            assert(s@.take(i as int).last() == s@[i as int - 1]);
            assert(out@ =~= old(out)@ + spec_escape_bytes(s@.take(i as int)));
        }
    }
    proof {
        assert(s@.take(s@.len() as int) =~= s@);
    }
}

/// Append a quoted, escaped string literal to `out`.
pub(crate) fn quote_into(out: &mut Vec<u8>, s: &[u8])
    ensures
        final(out)@ == old(out)@ + spec_quoted(s@),
{
    out.push(QUOTE);
    escape_into(out, s);
    out.push(QUOTE);
    proof {
        assert(out@ =~= old(out)@ + spec_quoted(s@));
    }
}

/// Append one roster entry as JSON to `out`.
fn user_into(out: &mut Vec<u8>, u: &UserInfo)
    ensures
        final(out)@ == old(out)@ + spec_user_json(u@),
{
    crate::bytes::append_bytes(out, "{\"user_id\":".as_bytes());
    quote_into(out, u.user_id.as_slice());
    crate::bytes::append_bytes(out, ",\"display_name\":".as_bytes());
    quote_into(out, u.display_name.as_slice());
    crate::bytes::append_bytes(out, "}".as_bytes());
    proof {
        assert(out@ =~= old(out)@ + spec_user_json(u@));
    }
}

/// Encode one server envelope as a text frame.
pub fn serialize_server(e: &ServerEnvelope) -> (r: Vec<u8>)
    ensures
        r@ == spec_serialize_server(e@),
{
    let mut out: Vec<u8> = Vec::new();
    match e {
        ServerEnvelope::Registered { user_id } => {
            crate::bytes::append_bytes(&mut out, "{\"type\":\"registered\",\"user_id\":".as_bytes());
            quote_into(&mut out, user_id.as_slice());
            crate::bytes::append_bytes(&mut out, "}".as_bytes());
            proof {
                assert(out@ =~= spec_serialize_server(e@));
            }
        },
        ServerEnvelope::UserList { users } => {
            crate::bytes::append_bytes(&mut out, "{\"type\":\"user_list\",\"users\":[".as_bytes());
            let ghost head = out@;
            let ghost models = users@.map_values(|u: UserInfo| u@);
            let mut i: usize = 0;
            while i < users.len()
                invariant
                    i <= users.len(),
                    models == users@.map_values(|u: UserInfo| u@),
                    out@ == head + spec_users_array(models.take(i as int)),
                decreases users.len() - i,
            {
                if i > 0 {
                    out.push(COMMA);
                }
                user_into(&mut out, &users[i]);
                i = i + 1;
                proof {
                    assert(models.take(i as int).drop_last() =~= models.take(i as int - 1));
                    assert(models.take(i as int).last() == models[i as int - 1]);
                    assert(out@ =~= head + spec_users_array(models.take(i as int)));
                }
            }
            crate::bytes::append_bytes(&mut out, "]}".as_bytes());
            proof {
                assert(models.take(models.len() as int) =~= models);
                assert(out@ =~= spec_serialize_server(e@));
            }
        },
        ServerEnvelope::UserJoined { user_id, display_name } => {
            crate::bytes::append_bytes(
                &mut out,
                "{\"type\":\"user_joined\",\"user_id\":".as_bytes(),
            );
            quote_into(&mut out, user_id.as_slice());
            crate::bytes::append_bytes(&mut out, ",\"display_name\":".as_bytes());
            quote_into(&mut out, display_name.as_slice());
            crate::bytes::append_bytes(&mut out, "}".as_bytes());
            proof {
                assert(out@ =~= spec_serialize_server(e@));
            }
        },
        ServerEnvelope::UserLeft { user_id } => {
            crate::bytes::append_bytes(&mut out, "{\"type\":\"user_left\",\"user_id\":".as_bytes());
            quote_into(&mut out, user_id.as_slice());
            crate::bytes::append_bytes(&mut out, "}".as_bytes());
            proof {
                assert(out@ =~= spec_serialize_server(e@));
            }
        },
        ServerEnvelope::Routed { kind, from_user_id, payload } => {
            match kind {
                RouteKind::Offer => {
                    crate::bytes::append_bytes(
                        &mut out,
                        "{\"type\":\"offer\",\"from_user_id\":".as_bytes(),
                    );
                    quote_into(&mut out, from_user_id.as_slice());
                    crate::bytes::append_bytes(&mut out, ",\"offer\":".as_bytes());
                },
                RouteKind::Answer => {
                    crate::bytes::append_bytes(
                        &mut out,
                        "{\"type\":\"answer\",\"from_user_id\":".as_bytes(),
                    );
                    quote_into(&mut out, from_user_id.as_slice());
                    crate::bytes::append_bytes(&mut out, ",\"answer\":".as_bytes());
                },
                RouteKind::IceCandidate => {
                    crate::bytes::append_bytes(
                        &mut out,
                        "{\"type\":\"ice_candidate\",\"from_user_id\":".as_bytes(),
                    );
                    quote_into(&mut out, from_user_id.as_slice());
                    crate::bytes::append_bytes(&mut out, ",\"candidate\":".as_bytes());
                },
            }
            crate::bytes::append_bytes(&mut out, payload.as_slice());
            crate::bytes::append_bytes(&mut out, "}".as_bytes());
            proof {
                assert(out@ =~= spec_serialize_server(e@));
            }
        },
        ServerEnvelope::Error { message } => {
            crate::bytes::append_bytes(&mut out, "{\"type\":\"error\",\"message\":".as_bytes());
            quote_into(&mut out, message.as_slice());
            crate::bytes::append_bytes(&mut out, "}".as_bytes());
            proof {
                assert(out@ =~= spec_serialize_server(e@));
            }
        },
    }
    out
}

/// `p` occurs verbatim, as one contiguous run of bytes, inside `s`.
pub open spec fn is_span_of(s: Seq<u8>, p: Seq<u8>) -> bool {
    exists|a: int| 0 <= a && a + p.len() <= s.len() && p == #[trigger] s.subrange(a, a + p.len())
}

/// Opaque payload, outbound: the frame encoded for a routed envelope is
/// the payload itself between fixed delimiters — the hub and the codec
/// never alter a routed payload's bytes.
pub proof fn lemma_payload_embedded(kind: RouteKind, from: Seq<u8>, payload: Seq<u8>)
    ensures
        spec_serialize_server(
            ServerEnvelopeModel::Routed { kind, from_user_id: from, payload },
        ) == spec_routed_prefix(kind) + spec_quoted(from) + spec_routed_key(kind) + payload
            + encode_utf8("}"@),
{
}

/// Helper for [`lemma_parse_payload_verbatim`]: a payload collected while
/// scanning members is either inherited from the accumulator or a verbatim
/// span of the frame.
proof fn lemma_fields_payload_spans(s: Seq<u8>, i: int, acc: FrameFields, first: bool)
    requires
        spec_parse_fields(s, i, acc, first) is Some,
    ensures
        ({
            let f = (spec_parse_fields(s, i, acc, first)->0).1;
            &&& (f.offer is Some ==> f.offer == acc.offer || is_span_of(s, f.offer->0))
            &&& (f.answer is Some ==> f.answer == acc.answer || is_span_of(s, f.answer->0))
            &&& (f.candidate is Some ==> f.candidate == acc.candidate || is_span_of(
                s,
                f.candidate->0,
            ))
        }),
    decreases s.len() - i,
{
    if 0 <= i < s.len() {
        if first && s[i] == RBRACE {
        } else if s[i] == QUOTE {
            match spec_parse_string(s, i + 1) {
                None => {},
                Some((after_key, key)) => {
                    let c = spec_skip_ws(s, after_key);
                    if c < s.len() && s[c] == COLON {
                        let v = spec_skip_ws(s, c + 1);
                        if i < v && v < s.len() {
                            if is_string_key(key) {
                                if s[v] == QUOTE {
                                    match spec_parse_string(s, v + 1) {
                                        None => {},
                                        Some((after_val, content)) => {
                                            match spec_store_string(acc, key, content) {
                                                None => {},
                                                Some(acc2) => {
                                                    let w = spec_skip_ws(s, after_val);
                                                    if w < s.len() && s[w] == COMMA {
                                                        let next = spec_skip_ws(s, w + 1);
                                                        if i < next <= s.len() {
                                                            lemma_fields_payload_spans(
                                                                s,
                                                                next,
                                                                acc2,
                                                                false,
                                                            );
                                                        }
                                                    }
                                                },
                                            }
                                        },
                                    }
                                }
                            } else {
                                match spec_parse_value(s, v, (DEPTH_LIMIT - 1) as nat) {
                                    None => {},
                                    Some(after_val) => {
                                        let raw = s.subrange(v, after_val);
                                        crate::json::lemma_parse_value_bounds(
                                            s,
                                            v,
                                            (DEPTH_LIMIT - 1) as nat,
                                        );
                                        assert(raw == s.subrange(v, v + raw.len()));
                                        assert(is_span_of(s, raw));
                                        match spec_store_payload(acc, key, raw) {
                                            None => {},
                                            Some(acc2) => {
                                                let w = spec_skip_ws(s, after_val);
                                                if w < s.len() && s[w] == COMMA {
                                                    let next = spec_skip_ws(s, w + 1);
                                                    if i < next <= s.len() {
                                                        lemma_fields_payload_spans(
                                                            s,
                                                            next,
                                                            acc2,
                                                            false,
                                                        );
                                                    }
                                                }
                                            },
                                        }
                                    },
                                }
                            }
                        }
                    }
                },
            }
        }
    }
}

/// Opaque payload, inbound: the payload a parsed routing envelope carries
/// is a verbatim contiguous span of the received frame — the codec never
/// re-encodes or normalizes it.
pub proof fn lemma_parse_payload_verbatim(
    s: Seq<u8>,
    kind: RouteKind,
    target: Seq<u8>,
    payload: Seq<u8>,
)
    requires
        spec_parse_frame(s) == Some(
            ClientEnvelopeModel::Route { kind, target_user_id: target, payload },
        ),
    ensures
        is_span_of(s, payload),
{
    let start = spec_skip_ws(s, 0);
    lemma_fields_payload_spans(s, spec_skip_ws(s, start + 1), empty_fields(), true);
}

} // verus!
