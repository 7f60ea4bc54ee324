//! The client side of the protocol: building the three request records
//! (each with its trailing delimiter, ready for the wire) and reading the
//! server's responses. The surrounding timer loop and the socket belong
//! to the caller.

use vstd::prelude::*;
use crate::decode::{
    decode_unit_spec, lemma_lookup_at, lemma_record_round_trip, lookup_spec, parse_record_spec,
    render_record, text_ok, RequestView,
};
use crate::dispatch::build_record;
use crate::room::entries_view;
use crate::text::{dec_val, is_dec, parse_dec, push_char};

verus! {

/// The `/auth` request for a name and room id, delimiter-terminated.
pub open spec fn auth_request(name: Seq<char>, room_id: Seq<char>) -> Seq<char> {
    render_record(seq![("path"@, "/auth"@), ("name"@, name), ("room_id"@, room_id)]) + seq![' ']
}

/// The `/send` request for a token and message, delimiter-terminated.
pub open spec fn send_request(jwt: Seq<char>, message: Seq<char>) -> Seq<char> {
    render_record(seq![("path"@, "/send"@), ("jwt"@, jwt), ("message"@, message)]) + seq![' ']
}

/// The `/receive` request for a token and cursor, delimiter-terminated.
pub open spec fn receive_request(jwt: Seq<char>, last_msg_i: Seq<char>) -> Seq<char> {
    render_record(seq![("path"@, "/receive"@), ("jwt"@, jwt), ("last_msg_i"@, last_msg_i)])
        + seq![' ']
}

fn build_request(pairs: &Vec<(String, String)>) -> (r: String)
    ensures
        r@ == render_record(entries_view(pairs@)) + seq![' '],
{
    let mut out = build_record(pairs);
    push_char(&mut out, ' ');
    out
}

/// Builds the `/auth` request a client sends to log into a room.
pub fn build_auth_request(name: &str, room_id: &str) -> (r: String)
    ensures
        r@ == auth_request(name@, room_id@),
{
    let mut v: Vec<(String, String)> = Vec::new();
    v.push((String::from_str("path"), String::from_str("/auth")));
    v.push((String::from_str("name"), name.to_owned()));
    v.push((String::from_str("room_id"), room_id.to_owned()));
    proof {
        assert(entries_view(v@) =~= seq![
            ("path"@, "/auth"@),
            ("name"@, name@),
            ("room_id"@, room_id@),
        ]);
    }
    build_request(&v)
}

/// Builds the `/send` request that posts one message under a token.
pub fn build_send_request(jwt: &str, message: &str) -> (r: String)
    ensures
        r@ == send_request(jwt@, message@),
{
    let mut v: Vec<(String, String)> = Vec::new();
    v.push((String::from_str("path"), String::from_str("/send")));
    v.push((String::from_str("jwt"), jwt.to_owned()));
    v.push((String::from_str("message"), message.to_owned()));
    proof {
        assert(entries_view(v@) =~= seq![
            ("path"@, "/send"@),
            ("jwt"@, jwt@),
            ("message"@, message@),
        ]);
    }
    build_request(&v)
}

/// Builds the `/receive` request that polls for entries past the cursor.
pub fn build_receive_request(jwt: &str, last_msg_i: usize) -> (r: String)
    ensures
        r@ == receive_request(jwt@, crate::text::dec_digits(last_msg_i as nat)),
{
    let mut v: Vec<(String, String)> = Vec::new();
    v.push((String::from_str("path"), String::from_str("/receive")));
    v.push((String::from_str("jwt"), jwt.to_owned()));
    let num = crate::text::usize_to_dec(last_msg_i);
    let ghost numv = num@;
    v.push((String::from_str("last_msg_i"), num));
    proof {
        assert(entries_view(v@) =~= seq![
            ("path"@, "/receive"@),
            ("jwt"@, jwt@),
            ("last_msg_i"@, numv),
        ]);
    }
    build_request(&v)
}

/// What the server decodes from the record of an `/auth` request is
/// exactly the authenticate operation the client encoded: wire encoding
/// loses nothing.
pub proof fn lemma_auth_request_decodes(name: Seq<char>, room_id: Seq<char>)
    requires
        text_ok(name),
        text_ok(room_id),
    ensures
        decode_unit_spec(
            render_record(seq![("path"@, "/auth"@), ("name"@, name), ("room_id"@, room_id)]),
        ) matches Ok(q) && q == (RequestView::Auth { name, room_id }),
{
    reveal_strlit("path");
    reveal_strlit("name");
    reveal_strlit("room_id");
    reveal_strlit("/auth");
    let ps = seq![("path"@, "/auth"@), ("name"@, name), ("room_id"@, room_id)];
    assert(text_ok("path"@));
    assert(text_ok("name"@));
    assert(text_ok("room_id"@));
    assert(text_ok("/auth"@));
    lemma_record_round_trip(ps);
    lemma_lookup_at(ps, "path"@, 0);
    assert("path"@ != "name"@) by {
        assert("path"@[0] == 'p');
        assert("name"@[0] == 'n');
    }
    lemma_lookup_at(ps, "name"@, 1);
    assert("path"@ != "room_id"@);
    assert("name"@ != "room_id"@);
    lemma_lookup_at(ps, "room_id"@, 2);
}

/// What the server decodes from the record of a `/send` request is
/// exactly the send operation the client encoded.
pub proof fn lemma_send_request_decodes(jwt: Seq<char>, message: Seq<char>)
    requires
        text_ok(jwt),
        text_ok(message),
    ensures
        decode_unit_spec(
            render_record(seq![("path"@, "/send"@), ("jwt"@, jwt), ("message"@, message)]),
        ) matches Ok(q) && q == (RequestView::Send { jwt, message }),
{
    reveal_strlit("path");
    reveal_strlit("jwt");
    reveal_strlit("message");
    reveal_strlit("/auth");
    reveal_strlit("/send");
    let ps = seq![("path"@, "/send"@), ("jwt"@, jwt), ("message"@, message)];
    assert(text_ok("path"@));
    assert(text_ok("jwt"@));
    assert(text_ok("message"@));
    assert(text_ok("/send"@));
    lemma_record_round_trip(ps);
    lemma_lookup_at(ps, "path"@, 0);
    assert("/send"@ != "/auth"@) by {
        assert("/send"@[1] == 's');
        assert("/auth"@[1] == 'a');
    }
    assert("path"@ != "jwt"@);
    lemma_lookup_at(ps, "jwt"@, 1);
    assert("path"@ != "message"@);
    assert("jwt"@ != "message"@);
    lemma_lookup_at(ps, "message"@, 2);
}

/// What the server decodes from the record of a `/receive` request is
/// exactly the catch-up operation the client encoded, cursor included.
pub proof fn lemma_receive_request_decodes(jwt: Seq<char>, cursor: nat)
    requires
        text_ok(jwt),
        cursor <= usize::MAX,
    ensures
        decode_unit_spec(
            render_record(
                seq![
                    ("path"@, "/receive"@),
                    ("jwt"@, jwt),
                    ("last_msg_i"@, crate::text::dec_digits(cursor)),
                ],
            ),
        ) matches Ok(q) && q == (RequestView::Receive { jwt, last_msg_i: cursor }),
{
    reveal_strlit("path");
    reveal_strlit("jwt");
    reveal_strlit("last_msg_i");
    reveal_strlit("/auth");
    reveal_strlit("/send");
    reveal_strlit("/receive");
    let num = crate::text::dec_digits(cursor);
    crate::text::lemma_dec_digits_val(cursor);
    assert(text_ok(num)) by {
        assert(forall|i: int|
            0 <= i < num.len() ==> crate::text::is_digit(num[i]) && num[i] != '"');
    }
    let ps = seq![("path"@, "/receive"@), ("jwt"@, jwt), ("last_msg_i"@, num)];
    assert(text_ok("path"@));
    assert(text_ok("jwt"@));
    assert(text_ok("last_msg_i"@));
    assert(text_ok("/receive"@));
    lemma_record_round_trip(ps);
    lemma_lookup_at(ps, "path"@, 0);
    assert("/receive"@ != "/auth"@);
    assert("/receive"@ != "/send"@);
    assert("path"@ != "jwt"@);
    lemma_lookup_at(ps, "jwt"@, 1);
    assert("path"@ != "last_msg_i"@);
    assert("jwt"@ != "last_msg_i"@);
    lemma_lookup_at(ps, "last_msg_i"@, 2);
}

/// The token an `/auth` response carries, if the response is a record
/// with a `jwt` field.
pub open spec fn auth_response_of(s: Seq<char>) -> Option<Seq<char>> {
    match parse_record_spec(s) {
        None => None,
        Some(ps) => lookup_spec(ps, "jwt"@),
    }
}

/// Reads the token out of an `/auth` response.
pub fn parse_auth_response(resp: &str) -> (r: Option<String>)
    ensures
        r matches Some(t) ==> auth_response_of(resp@) == Some(t@),
        r is None ==> auth_response_of(resp@) is None,
{
    let pairs = match crate::decode::parse_record(resp) {
        None => {
            return None;
        },
        Some(v) => v,
    };
    match crate::decode::lookup(&pairs, "jwt") {
        Some(t) => Some(t),
        None => None,
    }
}

/// What a `/receive` response means to the client.
pub enum UpdateResponse {
    /// `{"err":"empty"}`: nothing new, proceed.
    Empty,
    /// New entries and the cursor to poll from next time.
    New { message: String, last_msg_i: usize },
    /// Any other error record: surfaced, never shown as message content.
    Failed { kind: String },
    /// Not a record the protocol knows.
    Malformed,
}

/// The mathematical view of a `/receive` response reading.
pub enum UpdateResponseView {
    Empty,
    New { message: Seq<char>, last_msg_i: nat },
    Failed { kind: Seq<char> },
    Malformed,
}

impl View for UpdateResponse {
    type V = UpdateResponseView;

    open spec fn view(&self) -> UpdateResponseView {
        match self {
            UpdateResponse::Empty => UpdateResponseView::Empty,
            UpdateResponse::New { message, last_msg_i } => UpdateResponseView::New {
                message: message@,
                last_msg_i: *last_msg_i as nat,
            },
            UpdateResponse::Failed { kind } => UpdateResponseView::Failed { kind: kind@ },
            UpdateResponse::Malformed => UpdateResponseView::Malformed,
        }
    }
}

/// How the client reads a `/receive` response: `{"err":"empty"}` is "no
/// new data"; another `err` kind is surfaced; otherwise the `message`
/// and the new decimal cursor are taken.
pub open spec fn update_response_of(s: Seq<char>) -> UpdateResponseView {
    match parse_record_spec(s) {
        None => UpdateResponseView::Malformed,
        Some(ps) => match lookup_spec(ps, "err"@) {
            Some(k) => {
                if k == "empty"@ {
                    UpdateResponseView::Empty
                } else {
                    UpdateResponseView::Failed { kind: k }
                }
            },
            None => match (lookup_spec(ps, "message"@), lookup_spec(ps, "last_msg_i"@)) {
                (Some(m), Some(l)) => {
                    if is_dec(l) && dec_val(l) <= usize::MAX {
                        UpdateResponseView::New { message: m, last_msg_i: dec_val(l) }
                    } else {
                        UpdateResponseView::Malformed
                    }
                },
                _ => UpdateResponseView::Malformed,
            },
        },
    }
}

/// Reads a `/receive` response, exactly as `update_response_of` does.
/// The caller advances its read cursor to `last_msg_i` on `New`.
pub fn parse_update_response(resp: &str) -> (r: UpdateResponse)
    ensures
        r@ == update_response_of(resp@),
{
    let pairs = match crate::decode::parse_record(resp) {
        None => {
            return UpdateResponse::Malformed;
        },
        Some(v) => v,
    };
    match crate::decode::lookup(&pairs, "err") {
        Some(k) => {
            if crate::text::str_eq(k.as_str(), "empty") {
                UpdateResponse::Empty
            } else {
                UpdateResponse::Failed { kind: k }
            }
        },
        None => {
            match (crate::decode::lookup(&pairs, "message"), crate::decode::lookup(&pairs, "last_msg_i")) {
                (Some(m), Some(l)) => {
                    match parse_dec(l.as_str()) {
                        Some(v) => UpdateResponse::New { message: m, last_msg_i: v },
                        None => UpdateResponse::Malformed,
                    }
                },
                _ => UpdateResponse::Malformed,
            }
        },
    }
}

} // verus!
