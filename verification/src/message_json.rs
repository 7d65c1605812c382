//! The message's JSON shape: a canonical object with a fixed field
//! order, an encoder onto `JsonValue`, a decoder back, and the law that
//! decoding an encoded message yields the message unchanged.

use vstd::prelude::*;
use crate::errors::JsonError;
use crate::json::{jval_fields, jval_seq, lemma_jval_fields_index, lemma_jval_seq_index, JVal,
    JsonValue};
use crate::message::{Message, MessagePriority, MessageSource, MessageType, MessageVal, SourceVal};
use crate::text::str_eq;
use vstd::string::StringSliceAdditionalSpecFns;
use crate::user::{Permission, PlatformId, PlatformUserId, UserContext, UserCtxVal, UserId,
    UserInfo, UserInfoVal};

verus! {

/// The JSON form of a message source: `{"External": tag}`,
/// `{"Plugin": name}` or the string `"System"`.
pub open spec fn source_jval(s: SourceVal) -> JVal {
    match s {
        SourceVal::External(t) => JVal::Obj(seq![("External"@, JVal::Str(t))]),
        SourceVal::Plugin(n) => JVal::Obj(seq![("Plugin"@, JVal::Str(n))]),
        SourceVal::System => JVal::Str("System"@),
    }
}

pub open spec fn source_of_jval(v: JVal) -> Option<SourceVal> {
    match v {
        JVal::Str(s) => if s == "System"@ {
            Option::Some(SourceVal::System)
        } else {
            Option::None
        },
        JVal::Obj(fs) => if fs.len() == 1 {
            match fs[0].1 {
                JVal::Str(t) => if fs[0].0 == "External"@ {
                    Option::Some(SourceVal::External(t))
                } else if fs[0].0 == "Plugin"@ {
                    Option::Some(SourceVal::Plugin(t))
                } else {
                    Option::None
                },
                _ => Option::None,
            }
        } else {
            Option::None
        },
        _ => Option::None,
    }
}

/// The JSON form of an optional string: `null` or the string.
pub open spec fn opt_str_jval(s: Option<Seq<char>>) -> JVal {
    match s {
        Option::Some(t) => JVal::Str(t),
        Option::None => JVal::Null,
    }
}

pub open spec fn opt_str_of_jval(v: JVal) -> Option<Option<Seq<char>>> {
    match v {
        JVal::Null => Option::Some(Option::None),
        JVal::Str(t) => Option::Some(Option::Some(t)),
        _ => Option::None,
    }
}

/// The JSON form of the priority: its wire byte.
pub open spec fn priority_jval(p: MessagePriority) -> JVal {
    JVal::Int(p.byte() as int)
}

pub open spec fn priority_of_jval(v: JVal) -> Option<MessagePriority> {
    match v {
        JVal::Int(i) => if i == 0 {
            Option::Some(MessagePriority::Low)
        } else if i == 1 {
            Option::Some(MessagePriority::Normal)
        } else if i == 2 {
            Option::Some(MessagePriority::High)
        } else if i == 3 {
            Option::Some(MessagePriority::Critical)
        } else {
            Option::None
        },
        _ => Option::None,
    }
}

/// The JSON form of string-to-string metadata: an object of string
/// values, in stored order.
pub open spec fn meta_jval(m: Seq<(Seq<char>, Seq<char>)>) -> Seq<(Seq<char>, JVal)>
    decreases m.len(),
{
    if m.len() == 0 {
        Seq::empty()
    } else {
        meta_jval(m.drop_last()).push((m.last().0, JVal::Str(m.last().1)))
    }
}

pub open spec fn meta_of_fields(fs: Seq<(Seq<char>, JVal)>) -> Option<Seq<(Seq<char>, Seq<char>)>>
    decreases fs.len(),
{
    if fs.len() == 0 {
        Option::Some(Seq::empty())
    } else {
        match meta_of_fields(fs.drop_last()) {
            Option::Some(acc) => match fs.last().1 {
                JVal::Str(s) => Option::Some(acc.push((fs.last().0, s))),
                _ => Option::None,
            },
            Option::None => Option::None,
        }
    }
}

/// The JSON form of a string list.
pub open spec fn strs_jval(xs: Seq<Seq<char>>) -> Seq<JVal>
    decreases xs.len(),
{
    if xs.len() == 0 {
        Seq::empty()
    } else {
        strs_jval(xs.drop_last()).push(JVal::Str(xs.last()))
    }
}

pub open spec fn strs_of_jvals(vs: Seq<JVal>) -> Option<Seq<Seq<char>>>
    decreases vs.len(),
{
    if vs.len() == 0 {
        Option::Some(Seq::empty())
    } else {
        match strs_of_jvals(vs.drop_last()) {
            Option::Some(acc) => match vs.last() {
                JVal::Str(s) => Option::Some(acc.push(s)),
                _ => Option::None,
            },
            Option::None => Option::None,
        }
    }
}

/// The JSON form of an optional timestamp.
pub open spec fn opt_u64_jval(t: Option<u64>) -> JVal {
    match t {
        Option::Some(v) => JVal::Int(v as int),
        Option::None => JVal::Null,
    }
}

pub open spec fn opt_u64_of_jval(v: JVal) -> Option<Option<u64>> {
    match v {
        JVal::Null => Option::Some(Option::None),
        JVal::Int(i) => if 0 <= i <= u64::MAX {
            Option::Some(Option::Some(i as u64))
        } else {
            Option::None
        },
        _ => Option::None,
    }
}

/// The JSON form of a user context.
pub open spec fn ucx_jval(u: UserCtxVal) -> JVal {
    JVal::Obj(
        seq![
            (
                "user"@,
                JVal::Obj(
                    seq![
                        ("id"@, JVal::Str(u.user.id)),
                        ("name"@, JVal::Str(u.user.name)),
                        ("platform"@, JVal::Str(u.user.platform)),
                        ("platform_user_id"@, JVal::Str(u.user.platform_user_id)),
                    ],
                ),
            ),
            ("roles"@, JVal::Arr(strs_jval(u.roles))),
            ("permissions"@, JVal::Arr(strs_jval(u.permissions))),
            ("expires_at"@, opt_u64_jval(u.expires_at)),
        ],
    )
}

pub open spec fn ucx_of_jval(v: JVal) -> Option<UserCtxVal> {
    match v {
        JVal::Obj(fs) => if fs.len() == 4 && fs[0].0 == "user"@ && fs[1].0 == "roles"@ && fs[2].0
            == "permissions"@ && fs[3].0 == "expires_at"@ {
            match (fs[0].1, fs[1].1, fs[2].1, fs[3].1) {
                (JVal::Obj(ufs), JVal::Arr(rs), JVal::Arr(ps), ev) => if ufs.len() == 4
                    && ufs[0].0 == "id"@ && ufs[1].0 == "name"@ && ufs[2].0 == "platform"@
                    && ufs[3].0 == "platform_user_id"@ {
                    match (ufs[0].1, ufs[1].1, ufs[2].1, ufs[3].1) {
                        (JVal::Str(id), JVal::Str(nm), JVal::Str(pf), JVal::Str(pu)) => match (
                            strs_of_jvals(rs),
                            strs_of_jvals(ps),
                            opt_u64_of_jval(ev),
                        ) {
                            (Option::Some(roles), Option::Some(perms), Option::Some(ea)) =>
                                Option::Some(
                                UserCtxVal {
                                    user: UserInfoVal {
                                        id,
                                        name: nm,
                                        platform: pf,
                                        platform_user_id: pu,
                                    },
                                    roles,
                                    permissions: perms,
                                    expires_at: ea,
                                },
                            ),
                            _ => Option::None,
                        },
                        _ => Option::None,
                    }
                } else {
                    Option::None
                },
                _ => Option::None,
            }
        } else {
            Option::None
        },
        _ => Option::None,
    }
}

pub open spec fn opt_ucx_jval(u: Option<UserCtxVal>) -> JVal {
    match u {
        Option::Some(c) => ucx_jval(c),
        Option::None => JVal::Null,
    }
}

pub open spec fn opt_ucx_of_jval(v: JVal) -> Option<Option<UserCtxVal>> {
    match v {
        JVal::Null => Option::Some(Option::None),
        _ => match ucx_of_jval(v) {
            Option::Some(c) => Option::Some(Option::Some(c)),
            Option::None => Option::None,
        },
    }
}

/// The canonical JSON object of a message: nine fields in this order.
pub open spec fn json_of_message(m: MessageVal) -> JVal {
    JVal::Obj(
        seq![
            ("message_type"@, JVal::Str(m.topic)),
            ("payload"@, m.payload),
            ("priority"@, priority_jval(m.priority)),
            ("source"@, source_jval(m.source)),
            ("recipient"@, opt_str_jval(m.recipient)),
            ("timestamp"@, JVal::Int(m.timestamp as int)),
            ("message_id"@, opt_str_jval(m.message_id)),
            ("metadata"@, JVal::Obj(meta_jval(m.metadata))),
            ("user_context"@, opt_ucx_jval(m.user_context)),
        ],
    )
}

/// Reads a message back from its canonical JSON object; `None` on any
/// shape mismatch.
pub open spec fn message_of_json(v: JVal) -> Option<MessageVal> {
    match v {
        JVal::Obj(fs) => if fs.len() == 9 && fs[0].0 == "message_type"@ && fs[1].0 == "payload"@
            && fs[2].0 == "priority"@ && fs[3].0 == "source"@ && fs[4].0 == "recipient"@ && fs[5].0
            == "timestamp"@ && fs[6].0 == "message_id"@ && fs[7].0 == "metadata"@ && fs[8].0
            == "user_context"@ {
            match (fs[0].1, fs[7].1) {
                (JVal::Str(topic), JVal::Obj(mfs)) => match (
                    priority_of_jval(fs[2].1),
                    source_of_jval(fs[3].1),
                    opt_str_of_jval(fs[4].1),
                    opt_u64_of_jval(fs[5].1),
                    opt_str_of_jval(fs[6].1),
                    meta_of_fields(mfs),
                    opt_ucx_of_jval(fs[8].1),
                ) {
                    (
                        Option::Some(priority),
                        Option::Some(source),
                        Option::Some(recipient),
                        Option::Some(Option::Some(timestamp)),
                        Option::Some(message_id),
                        Option::Some(metadata),
                        Option::Some(user_context),
                    ) => Option::Some(
                        MessageVal {
                            topic,
                            payload: fs[1].1,
                            priority,
                            source,
                            recipient,
                            timestamp,
                            message_id,
                            metadata,
                            user_context,
                        },
                    ),
                    _ => Option::None,
                },
                _ => Option::None,
            }
        } else {
            Option::None
        },
        _ => Option::None,
    }
}

proof fn lemma_meta_roundtrip(m: Seq<(Seq<char>, Seq<char>)>)
    ensures
        meta_of_fields(meta_jval(m)) == Option::Some(m),
    decreases m.len(),
{
    if m.len() == 0 {
        assert(meta_of_fields(meta_jval(m)) =~~= Option::Some(m));
    } else {
        lemma_meta_roundtrip(m.drop_last());
        assert(meta_jval(m).drop_last() =~= meta_jval(m.drop_last()));
        assert(m.drop_last().push(m.last()) =~= m);
    }
}

proof fn lemma_strs_roundtrip(xs: Seq<Seq<char>>)
    ensures
        strs_of_jvals(strs_jval(xs)) == Option::Some(xs),
    decreases xs.len(),
{
    if xs.len() == 0 {
        assert(strs_of_jvals(strs_jval(xs)) =~~= Option::Some(xs));
    } else {
        lemma_strs_roundtrip(xs.drop_last());
        assert(strs_jval(xs).drop_last() =~= strs_jval(xs.drop_last()));
        assert(xs.drop_last().push(xs.last()) =~= xs);
    }
}

/// Names the round-trip fact for quantified use.
pub open spec fn lemma_message_json_roundtrip_applies(m: MessageVal) -> bool {
    message_of_json(json_of_message(m)) == Option::<MessageVal>::Some(m)
}

/// The JSON round-trip law: decoding the canonical JSON object of any
/// message yields exactly that message, every field included.
pub proof fn lemma_message_json_roundtrip(m: MessageVal)
    ensures
        message_of_json(json_of_message(m)) == Option::Some(m),
{
    let j = json_of_message(m);
    let fs = seq![
        ("message_type"@, JVal::Str(m.topic)),
        ("payload"@, m.payload),
        ("priority"@, priority_jval(m.priority)),
        ("source"@, source_jval(m.source)),
        ("recipient"@, opt_str_jval(m.recipient)),
        ("timestamp"@, JVal::Int(m.timestamp as int)),
        ("message_id"@, opt_str_jval(m.message_id)),
        ("metadata"@, JVal::Obj(meta_jval(m.metadata))),
        ("user_context"@, opt_ucx_jval(m.user_context)),
    ];
    assert(j == JVal::Obj(fs));
    assert(fs.len() == 9);
    assert(fs[0] == ("message_type"@, JVal::Str(m.topic)));
    assert(fs[1] == ("payload"@, m.payload));
    assert(fs[2] == ("priority"@, priority_jval(m.priority)));
    assert(fs[3] == ("source"@, source_jval(m.source)));
    assert(fs[4] == ("recipient"@, opt_str_jval(m.recipient)));
    assert(fs[5] == ("timestamp"@, JVal::Int(m.timestamp as int)));
    assert(fs[6] == ("message_id"@, opt_str_jval(m.message_id)));
    assert(fs[7] == ("metadata"@, JVal::Obj(meta_jval(m.metadata))));
    assert(fs[8] == ("user_context"@, opt_ucx_jval(m.user_context)));
    assert(priority_of_jval(priority_jval(m.priority)) == Option::Some(m.priority));
    reveal_strlit("External");
    reveal_strlit("Plugin");
    assert("External"@.len() == 8);
    assert("Plugin"@.len() == 6);
    assert(source_of_jval(source_jval(m.source)) == Option::Some(m.source));
    assert(opt_str_of_jval(opt_str_jval(m.recipient)) == Option::Some(m.recipient));
    assert(opt_u64_of_jval(JVal::Int(m.timestamp as int)) == Option::Some(
        Option::Some(m.timestamp),
    ));
    assert(opt_str_of_jval(opt_str_jval(m.message_id)) == Option::Some(m.message_id));
    lemma_meta_roundtrip(m.metadata);
    match m.user_context {
        Option::Some(u) => {
            lemma_strs_roundtrip(u.roles);
            lemma_strs_roundtrip(u.permissions);
            assert(opt_ucx_of_jval(opt_ucx_jval(m.user_context)) == Option::Some(m.user_context));
        },
        Option::None => {},
    }
    assert(message_of_json(json_of_message(m)) =~~= Option::Some(m));
}


/// Whether a message's numeric fields fit the JSON codec's 64-bit signed
/// integers.
pub open spec fn representable(m: MessageVal) -> bool {
    &&& m.timestamp <= i64::MAX
    &&& match m.user_context {
        Option::Some(u) => match u.expires_at {
            Option::Some(e) => e <= i64::MAX,
            Option::None => true,
        },
        Option::None => true,
    }
}

/// Builds the JSON object of a string list.
#[verifier::loop_isolation(false)]
fn strs_to_values(xs: &Vec<String>) -> (r: Vec<JsonValue>)
    ensures
        jval_seq(r@) == strs_jval(xs@.map_values(|s: String| s@)),
{
    let ghost sv = xs@.map_values(|s: String| s@);
    let mut out: Vec<JsonValue> = Vec::new();
    let mut i: usize = 0;
    proof {
        lemma_jval_seq_index(out@);
        assert(jval_seq(out@) =~= strs_jval(sv.take(0)));
    }
    while i < xs.len()
        invariant
            i <= xs.len(),
            sv == xs@.map_values(|s: String| s@),
            out@.len() == i,
            jval_seq(out@) == strs_jval(sv.take(i as int)),
        decreases xs.len() - i,
    {
        let ghost prev = out@;
        out.push(JsonValue::Str(xs[i].clone()));
        proof {
            lemma_jval_seq_index(prev);
            lemma_jval_seq_index(out@);
            assert(out@.drop_last() =~= prev);
            assert(sv.take(i + 1).drop_last() =~= sv.take(i as int));
            assert(jval_seq(out@) =~= jval_seq(prev).push(JVal::Str(sv[i as int])));
            assert(strs_jval(sv.take(i + 1)) =~= strs_jval(sv.take(i as int)).push(
                JVal::Str(sv[i as int]),
            ));
        }
        i = i + 1;
    }
    proof {
        assert(sv.take(xs@.len() as int) =~= sv);
    }
    out
}

/// Builds the JSON object fields of string-to-string metadata.
#[verifier::loop_isolation(false)]
pub(crate) fn meta_to_fields(m: &Vec<(String, String)>) -> (r: Vec<(String, JsonValue)>)
    ensures
        jval_fields(r@) == meta_jval(m@.map_values(|kv: (String, String)| (kv.0@, kv.1@))),
{
    let ghost mv = m@.map_values(|kv: (String, String)| (kv.0@, kv.1@));
    let mut out: Vec<(String, JsonValue)> = Vec::new();
    let mut i: usize = 0;
    proof {
        lemma_jval_fields_index(out@);
        assert(jval_fields(out@) =~= meta_jval(mv.take(0)));
    }
    while i < m.len()
        invariant
            i <= m.len(),
            mv == m@.map_values(|kv: (String, String)| (kv.0@, kv.1@)),
            out@.len() == i,
            jval_fields(out@) == meta_jval(mv.take(i as int)),
        decreases m.len() - i,
    {
        let ghost prev = out@;
        let k = m[i].0.clone();
        let v = m[i].1.clone();
        out.push((k, JsonValue::Str(v)));
        proof {
            lemma_jval_fields_index(prev);
            lemma_jval_fields_index(out@);
            assert(out@.drop_last() =~= prev);
            assert(mv.take(i + 1).drop_last() =~= mv.take(i as int));
            assert(jval_fields(out@) =~= jval_fields(prev).push(
                (mv[i as int].0, JVal::Str(mv[i as int].1)),
            ));
            assert(meta_jval(mv.take(i + 1)) =~= meta_jval(mv.take(i as int)).push(
                (mv[i as int].0, JVal::Str(mv[i as int].1)),
            ));
        }
        i = i + 1;
    }
    proof {
        assert(mv.take(m@.len() as int) =~= mv);
    }
    out
}

/// A two-element helper: a JSON object with one field.
fn one_field_obj(key: &str, value: JsonValue) -> (r: JsonValue)
    ensures
        r.jval() == JVal::Obj(seq![(key@, value.jval())]),
{
    let mut fields: Vec<(String, JsonValue)> = Vec::new();
    let ghost vv = value.jval();
    fields.push((key.to_owned(), value));
    proof {
        lemma_jval_fields_index(fields@);
        assert(jval_fields(fields@) =~= seq![(key@, vv)]);
    }
    JsonValue::Obj(fields)
}

impl Message {
    /// Encodes this message as its canonical JSON object.  Fails exactly
    /// when a numeric field does not fit the codec's signed 64-bit range.
    pub fn to_json_value(&self) -> (r: Result<JsonValue, JsonError>)
        ensures
            (r is Ok) == representable(self.mval()),
            r is Err ==> r == Result::<JsonValue, JsonError>::Err(JsonError::Shape),
            r matches Ok(j) ==> j.jval() == json_of_message(self.mval()),
    {
        if self.timestamp > i64::MAX as u64 {
            return Err(JsonError::Shape);
        }
        let source_value = match &self.source {
            MessageSource::External(t) => one_field_obj("External", JsonValue::Str(t.clone())),
            MessageSource::Plugin(n) => one_field_obj("Plugin", JsonValue::Str(n.clone())),
            MessageSource::System => JsonValue::Str("System".to_owned()),
        };
        let recipient_value = match &self.recipient {
            Some(u) => JsonValue::Str(u.clone()),
            None => JsonValue::Null,
        };
        let id_value = match &self.message_id {
            Some(u) => JsonValue::Str(u.clone()),
            None => JsonValue::Null,
        };
        let user_value = match &self.user_context {
            Some(u) => {
                match u.expires_at {
                    Some(e) => {
                        if e > i64::MAX as u64 {
                            return Err(JsonError::Shape);
                        }
                    },
                    None => {},
                }
                let mut ufs: Vec<(String, JsonValue)> = Vec::new();
                ufs.push(("id".to_owned(), JsonValue::Str(u.user.id.0.clone())));
                ufs.push(("name".to_owned(), JsonValue::Str(u.user.name.clone())));
                ufs.push(("platform".to_owned(), JsonValue::Str(u.user.platform.0.clone())));
                ufs.push(
                    (
                        "platform_user_id".to_owned(),
                        JsonValue::Str(u.user.platform_user_id.0.clone()),
                    ),
                );
                proof {
                    lemma_jval_fields_index(ufs@);
                    assert(jval_fields(ufs@) =~= seq![
                        ("id"@, JVal::Str(u.user.id.0@)),
                        ("name"@, JVal::Str(u.user.name@)),
                        ("platform"@, JVal::Str(u.user.platform.0@)),
                        ("platform_user_id"@, JVal::Str(u.user.platform_user_id.0@)),
                    ]);
                }
                let ghost ufsv = jval_fields(ufs@);
                let mut roles: Vec<String> = Vec::new();
                let mut ri: usize = 0;
                while ri < u.roles.len()
                    invariant
                        ri <= u.roles.len(),
                        roles@.len() == ri,
                        forall|j: int| 0 <= j < ri ==> roles@[j]@ == u.roles@[j]@,
                    decreases u.roles.len() - ri,
                {
                    roles.push(u.roles[ri].clone());
                    ri = ri + 1;
                }
                proof {
                    assert(roles@.map_values(|s: String| s@) =~= u.roles@.map_values(
                        |s: String| s@,
                    ));
                }
                let mut perms: Vec<String> = Vec::new();
                let mut pi: usize = 0;
                while pi < u.permissions.len()
                    invariant
                        pi <= u.permissions.len(),
                        perms@.len() == pi,
                        forall|j: int| 0 <= j < pi ==> perms@[j]@ == u.permissions@[j].0@,
                    decreases u.permissions.len() - pi,
                {
                    perms.push(u.permissions[pi].0.clone());
                    pi = pi + 1;
                }
                proof {
                    assert(perms@.map_values(|s: String| s@) =~= u.permissions@.map_values(
                        |p: Permission| p.0@,
                    ));
                }
                let expires_value = match u.expires_at {
                    Some(e) => JsonValue::Int(e as i64),
                    None => JsonValue::Null,
                };
                let mut cfs: Vec<(String, JsonValue)> = Vec::new();
                cfs.push(("user".to_owned(), JsonValue::Obj(ufs)));
                cfs.push(("roles".to_owned(), JsonValue::Arr(strs_to_values(&roles))));
                cfs.push(("permissions".to_owned(), JsonValue::Arr(strs_to_values(&perms))));
                cfs.push(("expires_at".to_owned(), expires_value));
                proof {
                    lemma_jval_fields_index(cfs@);
                    assert(jval_fields(cfs@) =~~= ucx_jval(u.cval())->Obj_0);
                }
                JsonValue::Obj(cfs)
            },
            None => JsonValue::Null,
        };
        proof {
            assert(user_value.jval() == opt_ucx_jval(self.mval().user_context));
        }
        let mut fields: Vec<(String, JsonValue)> = Vec::new();
        fields.push(("message_type".to_owned(), JsonValue::Str(self.message_type.0.clone())));
        fields.push(("payload".to_owned(), self.payload.duplicate()));
        fields.push(("priority".to_owned(), JsonValue::Int(self.priority.as_byte() as i64)));
        fields.push(("source".to_owned(), source_value));
        fields.push(("recipient".to_owned(), recipient_value));
        fields.push(("timestamp".to_owned(), JsonValue::Int(self.timestamp as i64)));
        fields.push(("message_id".to_owned(), id_value));
        fields.push(("metadata".to_owned(), JsonValue::Obj(meta_to_fields(&self.metadata))));
        fields.push(("user_context".to_owned(), user_value));
        proof {
            lemma_jval_fields_index(fields@);
            assert(jval_fields(fields@) =~~= json_of_message(self.mval())->Obj_0);
        }
        Ok(JsonValue::Obj(fields))
    }
}


proof fn lemma_meta_of_fields_none(fs: Seq<(Seq<char>, JVal)>, k: int)
    requires
        0 <= k < fs.len(),
        !(fs[k].1 is Str),
    ensures
        meta_of_fields(fs) is None,
    decreases fs.len(),
{
    if k < fs.len() - 1 {
        lemma_meta_of_fields_none(fs.drop_last(), k);
    }
}

proof fn lemma_strs_of_jvals_none(vs: Seq<JVal>, k: int)
    requires
        0 <= k < vs.len(),
        !(vs[k] is Str),
    ensures
        strs_of_jvals(vs) is None,
    decreases vs.len(),
{
    if k < vs.len() - 1 {
        lemma_strs_of_jvals_none(vs.drop_last(), k);
    }
}

/// Reads string-to-string metadata back from object fields.
#[verifier::loop_isolation(false)]
fn fields_to_meta(fs: &Vec<(String, JsonValue)>) -> (r: Result<Vec<(String, String)>, JsonError>)
    ensures
        (r is Err) == (meta_of_fields(jval_fields(fs@)) is None),
        r matches Ok(m) ==> meta_of_fields(jval_fields(fs@)) == Option::Some(
            m@.map_values(|kv: (String, String)| (kv.0@, kv.1@)),
        ),
{
    let ghost fv = jval_fields(fs@);
    proof {
        lemma_jval_fields_index(fs@);
    }
    let mut out: Vec<(String, String)> = Vec::new();
    let mut i: usize = 0;
    proof {
        assert(meta_of_fields(fv.take(0)) =~~= Option::Some(
            out@.map_values(|kv: (String, String)| (kv.0@, kv.1@)),
        ));
    }
    while i < fs.len()
        invariant
            i <= fs.len(),
            fv == jval_fields(fs@),
            fv.len() == fs@.len(),
            out@.len() == i,
            meta_of_fields(fv.take(i as int)) == Option::Some(
                out@.map_values(|kv: (String, String)| (kv.0@, kv.1@)),
            ),
        decreases fs.len() - i,
    {
        proof {
            assert(fv.take(i + 1).drop_last() =~= fv.take(i as int));
            assert(fv.take(i + 1).last() == fv[i as int]);
        }
        match &fs[i].1 {
            JsonValue::Str(v) => {
                let ghost prev = out@;
                let kk = fs[i].0.clone();
                let vv = v.clone();
                out.push((kk, vv));
                proof {
                    assert(out@.map_values(|kv: (String, String)| (kv.0@, kv.1@)) =~= prev
                        .map_values(|kv: (String, String)| (kv.0@, kv.1@)).push(
                        (fv[i as int].0, fv[i as int].1->Str_0),
                    ));
                }
            },
            _ => {
                proof {
                    lemma_meta_of_fields_none(fv, i as int);
                }
                return Err(JsonError::Shape);
            },
        }
        i = i + 1;
    }
    proof {
        assert(fv.take(fs@.len() as int) =~= fv);
    }
    Ok(out)
}

/// Reads a string list back from JSON values.
#[verifier::loop_isolation(false)]
fn values_to_strs(vs: &Vec<JsonValue>) -> (r: Result<Vec<String>, JsonError>)
    ensures
        (r is Err) == (strs_of_jvals(jval_seq(vs@)) is None),
        r matches Ok(m) ==> strs_of_jvals(jval_seq(vs@)) == Option::Some(
            m@.map_values(|s: String| s@),
        ),
{
    let ghost vv = jval_seq(vs@);
    proof {
        lemma_jval_seq_index(vs@);
    }
    let mut out: Vec<String> = Vec::new();
    let mut i: usize = 0;
    proof {
        assert(strs_of_jvals(vv.take(0)) =~~= Option::Some(out@.map_values(|s: String| s@)));
    }
    while i < vs.len()
        invariant
            i <= vs.len(),
            vv == jval_seq(vs@),
            vv.len() == vs@.len(),
            out@.len() == i,
            strs_of_jvals(vv.take(i as int)) == Option::Some(out@.map_values(|s: String| s@)),
        decreases vs.len() - i,
    {
        proof {
            assert(vv.take(i + 1).drop_last() =~= vv.take(i as int));
            assert(vv.take(i + 1).last() == vv[i as int]);
        }
        match &vs[i] {
            JsonValue::Str(v) => {
                let ghost prev = out@;
                out.push(v.clone());
                proof {
                    assert(out@.map_values(|s: String| s@) =~= prev.map_values(
                        |s: String| s@,
                    ).push(vv[i as int]->Str_0));
                }
            },
            _ => {
                proof {
                    lemma_strs_of_jvals_none(vv, i as int);
                }
                return Err(JsonError::Shape);
            },
        }
        i = i + 1;
    }
    proof {
        assert(vv.take(vs@.len() as int) =~= vv);
    }
    Ok(out)
}

/// Reads a message source back from its JSON form.
fn decode_source(v: &JsonValue) -> (r: Result<MessageSource, JsonError>)
    ensures
        (r is Err) == (source_of_jval(v.jval()) is None),
        r matches Ok(s) ==> source_of_jval(v.jval()) == Option::Some(s.sval()),
{
    match v {
        JsonValue::Str(s) => {
            if str_eq(s.as_str(), "System") {
                Ok(MessageSource::System)
            } else {
                Err(JsonError::Shape)
            }
        },
        JsonValue::Obj(fs) => {
            proof {
                lemma_jval_fields_index(fs@);
            }
            if fs.len() != 1 {
                return Err(JsonError::Shape);
            }
            match &fs[0].1 {
                JsonValue::Str(t) => {
                    if str_eq(fs[0].0.as_str(), "External") {
                        Ok(MessageSource::External(t.clone()))
                    } else if str_eq(fs[0].0.as_str(), "Plugin") {
                        Ok(MessageSource::Plugin(t.clone()))
                    } else {
                        Err(JsonError::Shape)
                    }
                },
                _ => Err(JsonError::Shape),
            }
        },
        _ => Err(JsonError::Shape),
    }
}

/// Reads an optional string back from `null` or a string.
fn decode_opt_str(v: &JsonValue) -> (r: Result<Option<String>, JsonError>)
    ensures
        (r is Err) == (opt_str_of_jval(v.jval()) is None),
        r matches Ok(s) ==> opt_str_of_jval(v.jval()) == Option::Some(
            match s {
                Option::Some(t) => Option::Some(t@),
                Option::None => Option::<Seq<char>>::None,
            },
        ),
{
    match v {
        JsonValue::Null => Ok(None),
        JsonValue::Str(s) => Ok(Some(s.clone())),
        _ => Err(JsonError::Shape),
    }
}

/// Reads an optional unsigned timestamp back from `null` or an integer.
fn decode_opt_u64(v: &JsonValue) -> (r: Result<Option<u64>, JsonError>)
    ensures
        (r is Err) == (opt_u64_of_jval(v.jval()) is None),
        r matches Ok(s) ==> opt_u64_of_jval(v.jval()) == Option::Some(s),
{
    match v {
        JsonValue::Null => Ok(None),
        JsonValue::Int(i) => {
            if *i < 0 {
                Err(JsonError::Shape)
            } else {
                Ok(Some(*i as u64))
            }
        },
        _ => Err(JsonError::Shape),
    }
}

/// Reads an optional user context back from `null` or its object form.
fn decode_opt_ucx(v: &JsonValue) -> (r: Result<Option<UserContext>, JsonError>)
    ensures
        (r is Err) == (opt_ucx_of_jval(v.jval()) is None),
        r matches Ok(u) ==> opt_ucx_of_jval(v.jval()) == Option::Some(
            match u {
                Option::Some(c) => Option::Some(c.cval()),
                Option::None => Option::<UserCtxVal>::None,
            },
        ),
{
    match v {
        JsonValue::Null => Ok(None),
        JsonValue::Obj(fs) => {
            proof {
                lemma_jval_fields_index(fs@);
            }
            if fs.len() != 4 {
                return Err(JsonError::Shape);
            }
            let keys_ok = str_eq(fs[0].0.as_str(), "user") && str_eq(fs[1].0.as_str(), "roles")
                && str_eq(fs[2].0.as_str(), "permissions") && str_eq(
                fs[3].0.as_str(),
                "expires_at",
            );
            if !keys_ok {
                return Err(JsonError::Shape);
            }
            let user = match &fs[0].1 {
                JsonValue::Obj(ufs) => {
                    proof {
                        lemma_jval_fields_index(ufs@);
                    }
                    if ufs.len() != 4 {
                        return Err(JsonError::Shape);
                    }
                    let ukeys_ok = str_eq(ufs[0].0.as_str(), "id") && str_eq(
                        ufs[1].0.as_str(),
                        "name",
                    ) && str_eq(ufs[2].0.as_str(), "platform") && str_eq(
                        ufs[3].0.as_str(),
                        "platform_user_id",
                    );
                    if !ukeys_ok {
                        return Err(JsonError::Shape);
                    }
                    match (&ufs[0].1, &ufs[1].1, &ufs[2].1, &ufs[3].1) {
                        (
                            JsonValue::Str(id),
                            JsonValue::Str(nm),
                            JsonValue::Str(pf),
                            JsonValue::Str(pu),
                        ) => UserInfo {
                            id: UserId(id.clone()),
                            name: nm.clone(),
                            platform: PlatformId(pf.clone()),
                            platform_user_id: PlatformUserId(pu.clone()),
                        },
                        _ => {
                            return Err(JsonError::Shape);
                        },
                    }
                },
                _ => {
                    return Err(JsonError::Shape);
                },
            };
            let roles = match &fs[1].1 {
                JsonValue::Arr(rs) => match values_to_strs(rs) {
                    Ok(r2) => r2,
                    Err(e) => {
                        return Err(e);
                    },
                },
                _ => {
                    return Err(JsonError::Shape);
                },
            };
            let perm_names = match &fs[2].1 {
                JsonValue::Arr(ps) => match values_to_strs(ps) {
                    Ok(p2) => p2,
                    Err(e) => {
                        return Err(e);
                    },
                },
                _ => {
                    return Err(JsonError::Shape);
                },
            };
            let expires_at = match decode_opt_u64(&fs[3].1) {
                Ok(e) => e,
                Err(e) => {
                    return Err(e);
                },
            };
            let mut permissions: Vec<Permission> = Vec::new();
            let mut i: usize = 0;
            while i < perm_names.len()
                invariant
                    i <= perm_names.len(),
                    permissions@.len() == i,
                    forall|j: int| 0 <= j < i ==> permissions@[j].0@ == perm_names@[j]@,
                decreases perm_names.len() - i,
            {
                permissions.push(Permission(perm_names[i].clone()));
                i = i + 1;
            }
            let ctx = UserContext { user, roles, permissions, expires_at };
            proof {
                assert(ctx.cval().permissions =~= perm_names@.map_values(|s: String| s@));
                assert(opt_ucx_of_jval(v.jval()) =~~= Option::Some(
                    Option::Some(ctx.cval()),
                ));
            }
            Ok(Some(ctx))
        },
        _ => Err(JsonError::Shape),
    }
}

impl Message {
    /// Decodes a message from its canonical JSON object, failing exactly
    /// where the shape does not match.
    pub fn from_json_value(v: &JsonValue) -> (r: Result<Message, JsonError>)
        ensures
            (r is Err) == (message_of_json(v.jval()) is None),
            r matches Ok(m) ==> message_of_json(v.jval()) == Option::Some(m.mval()),
    {
        let fs = match v {
            JsonValue::Obj(fs) => fs,
            _ => {
                return Err(JsonError::Shape);
            },
        };
        proof {
            lemma_jval_fields_index(fs@);
        }
        if fs.len() != 9 {
            return Err(JsonError::Shape);
        }
        let keys_ok = str_eq(fs[0].0.as_str(), "message_type") && str_eq(
            fs[1].0.as_str(),
            "payload",
        ) && str_eq(fs[2].0.as_str(), "priority") && str_eq(fs[3].0.as_str(), "source") && str_eq(
            fs[4].0.as_str(),
            "recipient",
        ) && str_eq(fs[5].0.as_str(), "timestamp") && str_eq(fs[6].0.as_str(), "message_id")
            && str_eq(fs[7].0.as_str(), "metadata") && str_eq(fs[8].0.as_str(), "user_context");
        if !keys_ok {
            return Err(JsonError::Shape);
        }
        let topic = match &fs[0].1 {
            JsonValue::Str(t) => t.clone(),
            _ => {
                return Err(JsonError::Shape);
            },
        };
        let metadata = match &fs[7].1 {
            JsonValue::Obj(mfs) => match fields_to_meta(mfs) {
                Ok(m) => m,
                Err(e) => {
                    return Err(e);
                },
            },
            _ => {
                return Err(JsonError::Shape);
            },
        };
        let priority = match &fs[2].1 {
            JsonValue::Int(i) => {
                if *i == 0 {
                    MessagePriority::Low
                } else if *i == 1 {
                    MessagePriority::Normal
                } else if *i == 2 {
                    MessagePriority::High
                } else if *i == 3 {
                    MessagePriority::Critical
                } else {
                    return Err(JsonError::Shape);
                }
            },
            _ => {
                return Err(JsonError::Shape);
            },
        };
        let source = match decode_source(&fs[3].1) {
            Ok(s) => s,
            Err(e) => {
                return Err(e);
            },
        };
        let recipient = match decode_opt_str(&fs[4].1) {
            Ok(s) => s,
            Err(e) => {
                return Err(e);
            },
        };
        let timestamp = match decode_opt_u64(&fs[5].1) {
            Ok(Some(t)) => t,
            Ok(None) => {
                return Err(JsonError::Shape);
            },
            Err(e) => {
                return Err(e);
            },
        };
        let message_id = match decode_opt_str(&fs[6].1) {
            Ok(s) => s,
            Err(e) => {
                return Err(e);
            },
        };
        let user_context = match decode_opt_ucx(&fs[8].1) {
            Ok(u) => u,
            Err(e) => {
                return Err(e);
            },
        };
        let m = Message {
            message_type: MessageType(topic),
            payload: fs[1].1.duplicate(),
            priority,
            source,
            recipient,
            timestamp,
            message_id,
            metadata,
            user_context,
        };
        proof {
            assert(message_of_json(v.jval()) =~~= Option::Some(m.mval()));
        }
        Ok(m)
    }
}


impl Message {
    /// Serializes this message to its canonical JSON text.  On success
    /// the text's UTF-8 bytes are exactly the canonical bytes of the
    /// message's JSON object.
    pub fn to_json(&self) -> (r: Result<String, JsonError>)
        ensures
            (r is Ok) == representable(self.mval()),
            r is Err ==> r == Result::<String, JsonError>::Err(JsonError::Shape),
            r matches Ok(s) ==> vstd::utf8::encode_utf8(s@) == crate::json::jbytes(
                json_of_message(self.mval()),
            ),
    {
        let value = match self.to_json_value() {
            Ok(v) => v,
            Err(e) => {
                return Err(e);
            },
        };
        let bytes = value.write_json();
        proof {
            crate::json::lemma_jbytes_valid(json_of_message(self.mval()));
        }
        match crate::text::bytes_to_string(bytes.as_slice()) {
            Some(s) => Ok(s),
            None => Err(JsonError::Syntax),
        }
    }

    /// Parses a message from JSON text in this codec's subset; the value
    /// read must have the canonical message shape.  The canonical text of
    /// any message value with integers in range decodes back to exactly
    /// that message.
    pub fn from_json(json: &str) -> (r: Result<Message, JsonError>)
        ensures
            r matches Ok(m) ==> exists|v: JVal| message_of_json(v) == Option::Some(m.mval()),
            forall|mv: MessageVal|
                json.spec_bytes() == crate::json::jbytes(json_of_message(mv))
                    && #[trigger] crate::json::ints_in_range(json_of_message(mv)) ==> (r matches Ok(
                    m,
                ) && m.mval() == mv),
    {
        proof {
            assert forall|mv: MessageVal|
                json.spec_bytes() == crate::json::jbytes(json_of_message(mv))
                    && #[trigger] crate::json::ints_in_range(json_of_message(mv)) implies
                lemma_message_json_roundtrip_applies(mv) by {
                lemma_message_json_roundtrip(mv);
            }
        }
        let value = match JsonValue::parse_json(json.as_bytes()) {
            Some(v) => v,
            None => {
                return Err(JsonError::Syntax);
            },
        };
        match Message::from_json_value(&value) {
            Ok(m) => {
                proof {
                    assert(message_of_json(value.jval()) == Option::Some(m.mval()));
                }
                Ok(m)
            },
            Err(e) => Err(e),
        }
    }
}

} // verus!
