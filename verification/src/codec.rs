//! Wire form of a message: a JSON object holding exactly the present
//! fields. Encoding builds the object member by member; decoding reads the
//! members back, refusing a member of the wrong kind.

use vstd::prelude::*;
use crate::common::ParseError;
use crate::jsonval::clone_value;
use crate::jsonval::depth_ok;
use crate::jsonval::member_ok;
use crate::jsonval::text_value;
use crate::jsonval::elems_of_value;
use crate::jsonval::int_of_value;
use crate::jsonval::is_null_value;
use crate::jsonval::is_obj;
use crate::jsonval::json_map_insert;
use crate::jsonval::json_of_value;
use crate::jsonval::map_field;
use crate::jsonval::new_json_map;
use crate::jsonval::obj_field;
use crate::jsonval::parse_value;
use crate::jsonval::reads_back;
use crate::jsonval::str_of_value;
use crate::jsonval::value_as_i64;
use crate::jsonval::value_as_str;
use crate::jsonval::value_get;
use crate::jsonval::value_is_null;
use crate::jsonval::value_is_object;
use crate::jsonval::value_of_i64;
use crate::jsonval::value_of_map;
use crate::jsonval::value_of_str;
use crate::jsonval::value_to_json;
use crate::msg::MsgModel;
use crate::msg::SignalMsg;
use crate::msg::view_opt_string;
use vstd::string::StringExecFns;

verus! {

/// An optional string field of a message and the object member that
/// stands for it: present exactly when the field is present, as a
/// non-null JSON string with the field's characters.
pub open spec fn member_for_str(f: Option<serde_json::Value>, o: Option<Seq<char>>) -> bool {
    match o {
        Some(s) => f matches Some(fv) && str_of_value(fv) == Some(s) && !is_null_value(fv),
        None => f is None,
    }
}

/// The optional integer field and the object member that stands for it.
pub open spec fn member_for_int(f: Option<serde_json::Value>, o: Option<int>) -> bool {
    match o {
        Some(i) => f matches Some(fv) && int_of_value(fv) == Some(i) && !is_null_value(fv)
            && i32::MIN <= i <= i32::MAX,
        None => f is None,
    }
}

/// The JSON object `v` is the wire form of the message `m`: one member
/// per present field, nothing else readable as a message field.
pub open spec fn encodes_to(m: MsgModel, v: serde_json::Value) -> bool {
    &&& is_obj(v)
    &&& member_for_str(obj_field(v, "action"@), m.action)
    &&& member_for_str(obj_field(v, "to_peer_id"@), m.to_peer_id)
    &&& member_for_str(obj_field(v, "to"@), m.to)
    &&& member_for_str(obj_field(v, "from_peer_id"@), m.from_peer_id)
    &&& member_for_str(obj_field(v, "from"@), m.from)
    &&& member_for_str(obj_field(v, "reason"@), m.reason)
    &&& obj_field(v, "data"@) == m.data
    &&& member_for_int(obj_field(v, "ver"@), m.ver)
}

/// A member is readable as an optional string field: absent, null, or a
/// string.
pub open spec fn str_member_ok(f: Option<serde_json::Value>) -> bool {
    match f {
        None => true,
        Some(fv) => is_null_value(fv) || str_of_value(fv) is Some,
    }
}

/// A member is readable as an optional `i32` field.
pub open spec fn int_member_ok(f: Option<serde_json::Value>) -> bool {
    match f {
        None => true,
        Some(fv) => is_null_value(fv) || (int_of_value(fv) matches Some(i) && i32::MIN <= i
            <= i32::MAX),
    }
}

/// The value reads as a message: an object whose known members have the
/// right kinds. Unknown members are ignored.
pub open spec fn msg_shape_ok(v: serde_json::Value) -> bool {
    &&& is_obj(v)
    &&& str_member_ok(obj_field(v, "action"@))
    &&& str_member_ok(obj_field(v, "to_peer_id"@))
    &&& str_member_ok(obj_field(v, "to"@))
    &&& str_member_ok(obj_field(v, "from_peer_id"@))
    &&& str_member_ok(obj_field(v, "from"@))
    &&& str_member_ok(obj_field(v, "reason"@))
    &&& int_member_ok(obj_field(v, "ver"@))
}

/// The string field read out of a member: a null member counts as absent.
pub open spec fn read_str_member(f: Option<serde_json::Value>) -> Option<Seq<char>> {
    match f {
        None => None,
        Some(fv) => if is_null_value(fv) {
            None
        } else {
            str_of_value(fv)
        },
    }
}

/// The integer field read out of a member.
pub open spec fn read_int_member(f: Option<serde_json::Value>) -> Option<int> {
    match f {
        None => None,
        Some(fv) => if is_null_value(fv) {
            None
        } else {
            int_of_value(fv)
        },
    }
}

/// The payload read out of a member: a null member counts as absent.
pub open spec fn read_data_member(f: Option<serde_json::Value>) -> Option<serde_json::Value> {
    match f {
        None => None,
        Some(fv) => if is_null_value(fv) {
            None
        } else {
            Some(fv)
        },
    }
}

/// The message a well-shaped value reads as.
pub open spec fn decoded_model(v: serde_json::Value) -> MsgModel {
    MsgModel {
        action: read_str_member(obj_field(v, "action"@)),
        to_peer_id: read_str_member(obj_field(v, "to_peer_id"@)),
        to: read_str_member(obj_field(v, "to"@)),
        from_peer_id: read_str_member(obj_field(v, "from_peer_id"@)),
        from: read_str_member(obj_field(v, "from"@)),
        reason: read_str_member(obj_field(v, "reason"@)),
        data: read_data_member(obj_field(v, "data"@)),
        ver: read_int_member(obj_field(v, "ver"@)),
    }
}

/// The message's payload, when present, keeps a nesting level to spare,
/// so the wire object built around it stays within what the parser
/// admits. Payloads read out of parsed text always do.
pub open spec fn data_member_ok(m: MsgModel) -> bool {
    m.data matches Some(d) ==> member_ok(d)
}

/// The eight member names are pairwise distinct.
proof fn lemma_member_names_distinct()
    ensures
        "action"@ != "to_peer_id"@ && "action"@ != "to"@ && "action"@ != "from_peer_id"@
            && "action"@ != "from"@ && "action"@ != "reason"@ && "action"@ != "data"@
            && "action"@ != "ver"@,
        "to_peer_id"@ != "to"@ && "to_peer_id"@ != "from_peer_id"@ && "to_peer_id"@ != "from"@
            && "to_peer_id"@ != "reason"@ && "to_peer_id"@ != "data"@ && "to_peer_id"@ != "ver"@,
        "to"@ != "from_peer_id"@ && "to"@ != "from"@ && "to"@ != "reason"@ && "to"@ != "data"@
            && "to"@ != "ver"@,
        "from_peer_id"@ != "from"@ && "from_peer_id"@ != "reason"@ && "from_peer_id"@ != "data"@
            && "from_peer_id"@ != "ver"@,
        "from"@ != "reason"@ && "from"@ != "data"@ && "from"@ != "ver"@,
        "reason"@ != "data"@ && "reason"@ != "ver"@,
        "data"@ != "ver"@,
{
    reveal_strlit("action");
    reveal_strlit("to_peer_id");
    reveal_strlit("to");
    reveal_strlit("from_peer_id");
    reveal_strlit("from");
    reveal_strlit("reason");
    reveal_strlit("data");
    reveal_strlit("ver");
    assert("action"@.len() == 6 && "to_peer_id"@.len() == 10 && "to"@.len() == 2
        && "from_peer_id"@.len() == 12 && "from"@.len() == 4 && "reason"@.len() == 6
        && "data"@.len() == 4 && "ver"@.len() == 3);
    assert("action"@[0] == 'a' && "reason"@[0] == 'r');
    assert("from"@[0] == 'f' && "data"@[0] == 'd');
}

/// Builds the wire object of a message: one member per present field.
/// For a message whose payload keeps a nesting level to spare, the
/// object's own print parses back.
pub fn msg_to_value(msg: &SignalMsg) -> (r: serde_json::Value)
    ensures
        encodes_to(msg@, r),
        data_member_ok(msg@) ==> depth_ok(r),
{
    proof {
        lemma_member_names_distinct();
    }
    let mut map = new_json_map();
    if let Some(s) = msg.action.as_ref() {
        json_map_insert(&mut map, "action", value_of_str(s.as_str()));
    }
    if let Some(s) = msg.to_peer_id.as_ref() {
        json_map_insert(&mut map, "to_peer_id", value_of_str(s.as_str()));
    }
    if let Some(s) = msg.to.as_ref() {
        json_map_insert(&mut map, "to", value_of_str(s.as_str()));
    }
    if let Some(s) = msg.from_peer_id.as_ref() {
        json_map_insert(&mut map, "from_peer_id", value_of_str(s.as_str()));
    }
    if let Some(s) = msg.from.as_ref() {
        json_map_insert(&mut map, "from", value_of_str(s.as_str()));
    }
    if let Some(s) = msg.reason.as_ref() {
        json_map_insert(&mut map, "reason", value_of_str(s.as_str()));
    }
    if let Some(d) = msg.data.as_ref() {
        json_map_insert(&mut map, "data", clone_value(d));
    }
    if let Some(i) = msg.ver {
        json_map_insert(&mut map, "ver", value_of_i64(i as i64));
    }
    proof {
        if data_member_ok(msg@) {
            assert(forall|k: Seq<char>| #[trigger] map_field(map, k) matches Some(f)
                ==> member_ok(f));
        }
    }
    value_of_map(map)
}

/// Serializes a message to wire text. The ghost result names the
/// intermediate wire object, so that the round-trip law applies to it.
pub fn encode_msg(msg: &SignalMsg) -> (r: String)
    ensures
        exists|v: serde_json::Value| #[trigger]
            encodes_to(msg@, v) && r@ == json_of_value(v) && r@.len() > 0 && (data_member_ok(
                msg@,
            ) ==> depth_ok(v)),
{
    let v = msg_to_value(msg);
    value_to_json(&v)
}

/// Reads a message out of a parsed JSON value. Returns `None` exactly
/// when the value is not an object or a known member has the wrong kind.
pub fn msg_of_value(v: &serde_json::Value) -> (r: Option<SignalMsg>)
    ensures
        r is Some <==> msg_shape_ok(*v),
        r matches Some(m) ==> m@ == decoded_model(*v),
        depth_ok(*v) ==> (r matches Some(m) ==> data_member_ok(m@)),
{
    if !value_is_object(v) {
        return None;
    }
    let action = match read_str_field(v, "action") {
        Ok(o) => o,
        Err(()) => {
            return None;
        },
    };
    let to_peer_id = match read_str_field(v, "to_peer_id") {
        Ok(o) => o,
        Err(()) => {
            return None;
        },
    };
    let to = match read_str_field(v, "to") {
        Ok(o) => o,
        Err(()) => {
            return None;
        },
    };
    let from_peer_id = match read_str_field(v, "from_peer_id") {
        Ok(o) => o,
        Err(()) => {
            return None;
        },
    };
    let from = match read_str_field(v, "from") {
        Ok(o) => o,
        Err(()) => {
            return None;
        },
    };
    let reason = match read_str_field(v, "reason") {
        Ok(o) => o,
        Err(()) => {
            return None;
        },
    };
    let data = match value_get(v, "data") {
        Some(fv) => if value_is_null(fv) {
            None
        } else {
            Some(clone_value(fv))
        },
        None => None,
    };
    let ver = match read_int_field(v, "ver") {
        Ok(o) => o,
        Err(()) => {
            return None;
        },
    };
    Some(
        SignalMsg {
            action,
            to_peer_id,
            to,
            from_peer_id,
            from,
            reason,
            data,
            ver,
        },
    )
}

/// Reads one optional string member; `Err` when present with the wrong
/// kind.
fn read_str_field(v: &serde_json::Value, k: &str) -> (r: Result<Option<String>, ()>)
    ensures
        match r {
            Ok(o) => str_member_ok(obj_field(*v, k@)) && view_opt_string(o) == read_str_member(
                obj_field(*v, k@),
            ),
            Err(()) => !str_member_ok(obj_field(*v, k@)),
        },
{
    match value_get(v, k) {
        Some(fv) => {
            if value_is_null(fv) {
                Ok(None)
            } else {
                match value_as_str(fv) {
                    Some(s) => Ok(Some(s.to_owned())),
                    None => Err(()),
                }
            }
        },
        None => Ok(None),
    }
}

/// Reads one optional `i32` member; `Err` when present with the wrong
/// kind or out of range.
fn read_int_field(v: &serde_json::Value, k: &str) -> (r: Result<Option<i32>, ()>)
    ensures
        match r {
            Ok(o) => int_member_ok(obj_field(*v, k@)) && (match o {
                Some(i) => read_int_member(obj_field(*v, k@)) == Some(i as int),
                None => read_int_member(obj_field(*v, k@)) is None,
            }),
            Err(()) => !int_member_ok(obj_field(*v, k@)),
        },
{
    match value_get(v, k) {
        Some(fv) => {
            if value_is_null(fv) {
                Ok(None)
            } else {
                match value_as_i64(fv) {
                    Some(i) => {
                        if i < i32::MIN as i64 || i > i32::MAX as i64 {
                            Err(())
                        } else {
                            Ok(Some(i as i32))
                        }
                    },
                    None => Err(()),
                }
            }
        },
        None => Ok(None),
    }
}

/// The outcome a parse owes for a given text. Over the text's parsed
/// value (`text_value`): a text that is not JSON errors, and JSON reads
/// as its message exactly when the known members have the right kinds.
/// Over prints: whatever is read out of the wire form of some JSON
/// value is that value's message, with a readable payload; and for a
/// value the parser's nesting limit admits, a well-shaped value yields
/// its message and an ill-shaped one an error.
pub open spec fn parse_outcome_ok(s: Seq<char>, r: Result<SignalMsg, ParseError>) -> bool {
    &&& (s.len() > 0 && text_value(s) is None ==> r is Err)
    &&& (s.len() > 0 ==> (text_value(s) matches Some(u) ==> {
        &&& (r is Ok <==> msg_shape_ok(u))
        &&& (r matches Ok(m) ==> m@ == decoded_model(u) && data_member_ok(m@))
    }))
    &&& (forall|v: serde_json::Value| s == json_of_value(v) ==> {
        &&& (r matches Ok(m) ==> msg_shape_ok(v) && m@ == decoded_model(v) && data_member_ok(m@))
        &&& (depth_ok(v) ==> (if msg_shape_ok(v) {
            r matches Ok(m) && m@ == decoded_model(v)
        } else {
            r is Err
        }))
    })
}

/// Reads a message out of wire text. Empty text is refused as
/// `TextEmpty`; any other failure carries the underlying error and the
/// offending text.
pub fn parse_json(json_str: &str) -> (r: Result<SignalMsg, ParseError>)
    ensures
        json_str@.len() == 0 <==> r matches Err(ParseError::TextEmpty),
        r matches Err(ParseError::Parse(_, t)) ==> t@ == json_str@,
        json_str@.len() > 0 ==> parse_outcome_ok(json_str@, r),
{
    if json_str.is_empty() {
        return Err(ParseError::TextEmpty);
    }
    match parse_value(json_str) {
        Ok(v) => {
            match msg_of_value(&v) {
                Some(m) => Ok(m),
                None => Err(
                    ParseError::Parse(
                        String::from_str("the members do not read as a message"),
                        json_str.to_owned(),
                    ),
                ),
            }
        },
        Err(e) => Err(ParseError::Parse(e, json_str.to_owned())),
    }
}

/// Round trip: the wire form of a message, parsed back, yields an equal
/// message. The wire object must be one the parser's nesting limit
/// admits (`encode_msg` grants this for a message whose payload keeps a
/// level to spare). A `null` payload is the one exception: on the wire
/// it is not told apart from an absent payload, and reads back as
/// absent.
pub proof fn lemma_round_trip(
    m: MsgModel,
    v: serde_json::Value,
    s: Seq<char>,
    r: Result<SignalMsg, ParseError>,
)
    requires
        encodes_to(m, v),
        (m.data matches Some(d) ==> !is_null_value(d)),
        depth_ok(v),
        s == json_of_value(v),
        s.len() > 0,
        parse_outcome_ok(s, r),
    ensures
        r matches Ok(m2) && m2@ == m,
{
    lemma_encoded_shape(m, v);
}

/// The wire form of a message is well shaped and reads back as the
/// message (given a non-null payload).
pub proof fn lemma_encoded_shape(m: MsgModel, v: serde_json::Value)
    requires
        encodes_to(m, v),
        (m.data matches Some(d) ==> !is_null_value(d)),
    ensures
        msg_shape_ok(v),
        decoded_model(v) == m,
{
}

} // verus!
