use vstd::prelude::*;
use crate::json::{
    Json, JsonMember, JsonNum, JsonV, jview, jview_pairs, jview_list, str_to_chars,
    chars_to_string, lemma_jview_pairs_len, lemma_jview_list_len, lemma_jview_list_index,
    json_parse, render, lemma_json_round_trip,
};
use crate::types::{
    Message, MessageV, Usage, ConversationChoice, ConversationChoiceV, ConversationResponse,
    ConversationResponseV, DeltaChunk, DeltaChunkV, ChoiceChunk, ChoiceChunkV, ChatCompletionChunk,
    ChatCompletionChunkV, CompletionOptions, CompletionOptionsV,
};

verus! {

// ---------------------------------------------------------------------------
// Looking a member up in a JSON object: the first member with the key wins,
// members with other keys are passed over.
// ---------------------------------------------------------------------------

pub open spec fn obj_lookup(m: Seq<(Seq<char>, JsonV)>, key: Seq<char>) -> Option<JsonV>
    decreases m.len(),
{
    if m.len() == 0 {
        None
    } else if m[0].0 == key {
        Some(m[0].1)
    } else {
        obj_lookup(m.drop_first(), key)
    }
}

pub proof fn lemma_obj_lookup_single(e: (Seq<char>, JsonV), key: Seq<char>)
    ensures
        obj_lookup(seq![e], key) == (if e.0 == key {
            Some(e.1)
        } else {
            None::<JsonV>
        }),
{
    assert(seq![e].drop_first() =~= Seq::<(Seq<char>, JsonV)>::empty());
    assert(seq![e][0] == e);
    assert(obj_lookup(Seq::<(Seq<char>, JsonV)>::empty(), key) is None);
}

pub proof fn lemma_obj_lookup_concat(a: Seq<(Seq<char>, JsonV)>, b: Seq<(Seq<char>, JsonV)>, key: Seq<char>)
    ensures
        obj_lookup(a + b, key) == (match obj_lookup(a, key) {
            Some(v) => Some(v),
            None => obj_lookup(b, key),
        }),
    decreases a.len(),
{
    if a.len() == 0 {
        assert(a + b =~= b);
    } else {
        assert((a + b)[0] == a[0]);
        assert((a + b).len() > 0);
        assert((a + b).drop_first() =~= a.drop_first() + b);
        lemma_obj_lookup_concat(a.drop_first(), b, key);
    }
}

pub fn chars_eq(a: &Vec<char>, b: &Vec<char>) -> (r: bool)
    ensures
        r == (a@ == b@),
{
    if a.len() != b.len() {
        return false;
    }
    let mut i: usize = 0;
    while i < a.len()
        invariant
            i <= a.len(),
            a@.len() == b@.len(),
            forall|t: int| 0 <= t < i ==> a@[t] == b@[t],
        decreases a.len() - i,
    {
        if a[i] != b[i] {
            return false;
        }
        i = i + 1;
    }
    proof {
        assert(a@ =~= b@);
    }
    true
}

/// Finds the first member of `m` whose key is `key`, as [`obj_lookup`] reads
/// the object.
fn obj_find(m: &Vec<JsonMember>, key: &Vec<char>) -> (r: Option<usize>)
    ensures
        (match r {
            Some(i) => i < m.len() && m@[i as int].key@ == key@ && obj_lookup(
                jview_pairs(*m, 0),
                key@,
            ) == Some(jview(m@[i as int].value)),
            None => obj_lookup(jview_pairs(*m, 0), key@) is None,
        }),
{
    let mut i: usize = 0;
    proof {
        lemma_jview_pairs_len(*m, 0);
    }
    while i < m.len()
        invariant
            i <= m@.len(),
            obj_lookup(jview_pairs(*m, 0), key@) == obj_lookup(jview_pairs(*m, i as int), key@),
        decreases m@.len() - i,
    {
        proof {
            lemma_jview_pairs_len(*m, i as int);
            lemma_jview_pairs_len(*m, i as int + 1);
            assert(jview_pairs(*m, i as int)[0] == (m@[i as int].key@, jview(m@[i as int].value)));
            assert(jview_pairs(*m, i as int).drop_first() =~= jview_pairs(*m, i as int + 1));
        }
        if chars_eq(&m[i].key, key) {
            return Some(i);
        }
        i = i + 1;
    }
    proof {
        lemma_jview_pairs_len(*m, m@.len() as int);
    }
    None
}

// ---------------------------------------------------------------------------
// Numbers as the typed fields read them.
// ---------------------------------------------------------------------------

/// A JSON number read as an unsigned integer: no sign, no fraction digits.
pub open spec fn num_as_u64(n: JsonNum) -> Option<u64> {
    if !n.neg && n.scale == 0 {
        Some(n.mantissa)
    } else {
        None
    }
}

pub open spec fn num_as_usize(n: JsonNum) -> Option<usize> {
    if !n.neg && n.scale == 0 && n.mantissa <= usize::MAX {
        Some(n.mantissa as usize)
    } else {
        None
    }
}

pub open spec fn num_of_usize(x: usize) -> JsonNum {
    JsonNum { neg: false, mantissa: x as u64, scale: 0 }
}

pub open spec fn num_of_isize(x: isize) -> JsonNum {
    JsonNum {
        neg: x < 0,
        mantissa: (if x >= 0 {
            x as int
        } else {
            -(x as int)
        }) as u64,
        scale: 0,
    }
}

fn usize_num(x: usize) -> (r: JsonNum)
    ensures
        r == num_of_usize(x),
{
    JsonNum { neg: false, mantissa: x as u64, scale: 0 }
}

fn isize_num(x: isize) -> (r: JsonNum)
    ensures
        r == num_of_isize(x),
{
    if x >= 0 {
        JsonNum { neg: false, mantissa: x as u64, scale: 0 }
    } else {
        let m: u64 = (-(x + 1)) as u64 + 1;
        proof {
            assert(m as int == -(x as int));
        }
        JsonNum { neg: true, mantissa: m, scale: 0 }
    }
}

// ---------------------------------------------------------------------------
// Messages on the wire.
// ---------------------------------------------------------------------------

/// The members of a message object: `content` first when present, then
/// `role`, then `function_call` when present. Absent fields are left out
/// entirely, never written as `null`.
pub open spec fn message_members(m: MessageV) -> Seq<(Seq<char>, JsonV)> {
    (match m.content {
        Some(c) => seq![("content"@, JsonV::Str(c))],
        None => Seq::empty(),
    }) + seq![("role"@, JsonV::Str(m.role))] + (match m.function_call {
        Some(f) => seq![("function_call"@, JsonV::Str(f))],
        None => Seq::empty(),
    })
}

pub open spec fn message_jv(m: MessageV) -> JsonV {
    JsonV::Obj(message_members(m))
}

/// How a message is read back from a JSON document: `role` must be a string;
/// `content` and `function_call` may be strings, or absent, or `null` (read
/// as absent). Members with other keys are ignored.
pub open spec fn message_of(v: JsonV) -> Option<MessageV> {
    match v {
        JsonV::Obj(m) => match obj_lookup(m, "role"@) {
            Some(JsonV::Str(r)) => {
                let content = match obj_lookup(m, "content"@) {
                    Some(JsonV::Str(c)) => Some(Some(c)),
                    Some(JsonV::Null) => Some(None::<Seq<char>>),
                    None => Some(None::<Seq<char>>),
                    Some(_) => None,
                };
                let fc = match obj_lookup(m, "function_call"@) {
                    Some(JsonV::Str(f)) => Some(Some(f)),
                    Some(JsonV::Null) => Some(None::<Seq<char>>),
                    None => Some(None::<Seq<char>>),
                    Some(_) => None,
                };
                match (content, fc) {
                    (Some(c), Some(f)) => Some(MessageV { content: c, role: r, function_call: f }),
                    _ => None,
                }
            },
            _ => None,
        },
        _ => None,
    }
}

pub proof fn lemma_jview_pairs_snoc(pre: Vec<JsonMember>, post: Vec<JsonMember>, x: JsonMember, i: int)
    requires
        post@ == pre@.push(x),
        0 <= i <= pre.len(),
    ensures
        jview_pairs(post, i) == jview_pairs(pre, i) + seq![(x.key@, jview(x.value))],
    decreases pre.len() - i,
{
    if i < pre.len() {
        lemma_jview_pairs_snoc(pre, post, x, i + 1);
        assert(post[i] == pre[i]);
        assert(jview_pairs(post, i) =~= jview_pairs(pre, i) + seq![(x.key@, jview(x.value))]);
    } else {
        assert(post[i] == x);
        assert(jview_pairs(post, i + 1) =~= Seq::<(Seq<char>, JsonV)>::empty());
        assert(jview_pairs(pre, i) =~= Seq::<(Seq<char>, JsonV)>::empty());
        assert(jview_pairs(post, i) =~= jview_pairs(pre, i) + seq![(x.key@, jview(x.value))]);
    }
}

pub proof fn lemma_jview_list_snoc(pre: Vec<Json>, post: Vec<Json>, x: Json, i: int)
    requires
        post@ == pre@.push(x),
        0 <= i <= pre.len(),
    ensures
        jview_list(post, i) == jview_list(pre, i) + seq![jview(x)],
    decreases pre.len() - i,
{
    if i < pre.len() {
        lemma_jview_list_snoc(pre, post, x, i + 1);
        assert(post[i] == pre[i]);
        assert(jview_list(post, i) =~= jview_list(pre, i) + seq![jview(x)]);
    } else {
        assert(post[i] == x);
        assert(jview_list(post, i + 1) =~= Seq::<JsonV>::empty());
        assert(jview_list(pre, i) =~= Seq::<JsonV>::empty());
        assert(jview_list(post, i) =~= jview_list(pre, i) + seq![jview(x)]);
    }
}

/// Encodes one message as the JSON object [`message_jv`] describes.
pub fn message_to_json(m: &Message) -> (r: Json)
    ensures
        r@ == message_jv(m@),
{
    let mut mems: Vec<JsonMember> = Vec::new();
    let ghost e0: Vec<JsonMember> = mems;
    match &m.content {
        Some(c) => {
            mems.push(JsonMember { key: str_to_chars("content"), value: Json::Str(str_to_chars(c.as_str())) });
        },
        None => {},
    }
    let ghost e1: Vec<JsonMember> = mems;
    mems.push(JsonMember { key: str_to_chars("role"), value: Json::Str(str_to_chars(m.role.as_str())) });
    let ghost e2: Vec<JsonMember> = mems;
    match &m.function_call {
        Some(f) => {
            mems.push(JsonMember { key: str_to_chars("function_call"), value: Json::Str(str_to_chars(f.as_str())) });
        },
        None => {},
    }
    proof {
        assert(jview_pairs(e0, 0) =~= Seq::<(Seq<char>, JsonV)>::empty());
        if m.content is Some {
            lemma_jview_pairs_snoc(e0, e1, e1@[0], 0);
        }
        lemma_jview_pairs_snoc(e1, e2, e2@[e2@.len() - 1], 0);
        if m.function_call is Some {
            lemma_jview_pairs_snoc(e2, mems, mems@[mems@.len() - 1], 0);
        }
        assert(jview_pairs(mems, 0) =~= message_members(m@));
    }
    Json::Obj(mems)
}

/// Decodes one message from a JSON document, as [`message_of`] describes.
pub fn message_from_json(j: &Json) -> (r: Option<Message>)
    ensures
        (match r {
            Some(msg) => message_of(j@) == Some(msg@),
            None => message_of(j@) is None,
        }),
{
    match j {
        Json::Obj(m) => {
            let role: String;
            match obj_find(m, &str_to_chars("role")) {
                None => {
                    return None;
                },
                Some(ri) => {
                    match &m[ri].value {
                        Json::Str(rs) => {
                            role = chars_to_string(rs);
                        },
                        _ => {
                            return None;
                        },
                    }
                },
            }
            let content: Option<String>;
            match obj_find(m, &str_to_chars("content")) {
                None => {
                    content = None;
                },
                Some(ci) => {
                    match &m[ci].value {
                        Json::Str(cs) => {
                            content = Some(chars_to_string(cs));
                        },
                        Json::Null => {
                            content = None;
                        },
                        _ => {
                            return None;
                        },
                    }
                },
            }
            let function_call: Option<String>;
            match obj_find(m, &str_to_chars("function_call")) {
                None => {
                    function_call = None;
                },
                Some(fi) => {
                    match &m[fi].value {
                        Json::Str(fs) => {
                            function_call = Some(chars_to_string(fs));
                        },
                        Json::Null => {
                            function_call = None;
                        },
                        _ => {
                            return None;
                        },
                    }
                },
            }
            let msg = Message { content, role, function_call };
            proof {
                assert(message_of(j@) == Some(msg@));
            }
            Some(msg)
        },
        _ => None,
    }
}

/// Law: reading back an encoded message gives the original message, for
/// every combination of present and absent optional fields.
pub proof fn lemma_message_round_trip(m: MessageV)
    ensures
        message_of(message_jv(m)) == Some(m),
{
    reveal_with_fuel(obj_lookup, 5);
    reveal_strlit("content");
    reveal_strlit("role");
    reveal_strlit("function_call");
    assert("content"@.len() == 7);
    assert("role"@.len() == 4);
    assert("function_call"@.len() == 13);
    let mems = message_members(m);
    let ce = ("content"@, JsonV::Str(match m.content {
        Some(c) => c,
        None => Seq::empty(),
    }));
    let re = ("role"@, JsonV::Str(m.role));
    let fe = ("function_call"@, JsonV::Str(match m.function_call {
        Some(f) => f,
        None => Seq::empty(),
    }));
    match (m.content, m.function_call) {
        (Some(c), Some(f)) => {
            assert(mems =~= seq![ce, re, fe]);
            assert(mems.drop_first() =~= seq![re, fe]);
            assert(seq![re, fe].drop_first() =~= seq![fe]);
            assert(seq![fe].drop_first() =~= Seq::<(Seq<char>, JsonV)>::empty());
            assert(obj_lookup(mems, "content"@) == Some(JsonV::Str(c)));
            assert(obj_lookup(mems, "role"@) == Some(JsonV::Str(m.role)));
            assert(obj_lookup(mems, "function_call"@) == Some(JsonV::Str(f)));
        },
        (Some(c), None) => {
            assert(mems =~= seq![ce, re]);
            assert(mems.drop_first() =~= seq![re]);
            assert(seq![re].drop_first() =~= Seq::<(Seq<char>, JsonV)>::empty());
            assert(obj_lookup(mems, "content"@) == Some(JsonV::Str(c)));
            assert(obj_lookup(mems, "role"@) == Some(JsonV::Str(m.role)));
            assert(obj_lookup(mems, "function_call"@) is None);
        },
        (None, Some(f)) => {
            assert(mems =~= seq![re, fe]);
            assert(mems.drop_first() =~= seq![fe]);
            assert(seq![fe].drop_first() =~= Seq::<(Seq<char>, JsonV)>::empty());
            assert(obj_lookup(mems, "content"@) is None);
            assert(obj_lookup(mems, "role"@) == Some(JsonV::Str(m.role)));
            assert(obj_lookup(mems, "function_call"@) == Some(JsonV::Str(f)));
        },
        (None, None) => {
            assert(mems =~= seq![re]);
            assert(mems.drop_first() =~= Seq::<(Seq<char>, JsonV)>::empty());
            assert(obj_lookup(mems, "content"@) is None);
            assert(obj_lookup(mems, "role"@) == Some(JsonV::Str(m.role)));
            assert(obj_lookup(mems, "function_call"@) is None);
        },
    }
    assert(message_of(message_jv(m)) == Some(m));
}

/// Law: the full text round trip for a message. Encoding a message and
/// rendering it gives a text that parses back to the very document it was,
/// and reading that document gives back the original message, for every
/// combination of present and absent optional fields.
pub proof fn lemma_message_text_round_trip(m: MessageV)
    ensures
        json_parse(render(message_jv(m))) == Some(message_jv(m)),
        message_of(message_jv(m)) == Some(m),
{
    lemma_json_round_trip(message_jv(m));
    lemma_message_round_trip(m);
}

// ---------------------------------------------------------------------------
// Streamed frames and full responses, read from JSON documents. A member
// with an unknown key is ignored; a missing required member, or one of the
// wrong type, makes the whole read fail.
// ---------------------------------------------------------------------------

pub open spec fn delta_of(v: JsonV) -> Option<DeltaChunkV> {
    match v {
        JsonV::Obj(m) => {
            let content = match obj_lookup(m, "content"@) {
                Some(JsonV::Str(c)) => Some(Some(c)),
                Some(JsonV::Null) => Some(None::<Seq<char>>),
                None => Some(None::<Seq<char>>),
                Some(_) => None,
            };
            let role = match obj_lookup(m, "role"@) {
                Some(JsonV::Str(r)) => Some(Some(r)),
                Some(JsonV::Null) => Some(None::<Seq<char>>),
                None => Some(None::<Seq<char>>),
                Some(_) => None,
            };
            match (content, role) {
                (Some(c), Some(r)) => Some(DeltaChunkV { content: c, role: r }),
                _ => None,
            }
        },
        _ => None,
    }
}

pub open spec fn choice_chunk_of(v: JsonV) -> Option<ChoiceChunkV> {
    match v {
        JsonV::Obj(m) => match (obj_lookup(m, "delta"@), obj_lookup(m, "index"@)) {
            (Some(d), Some(JsonV::Num(n))) => match (delta_of(d), num_as_usize(n)) {
                (Some(dv), Some(ix)) => Some(ChoiceChunkV { delta: dv, index: ix }),
                _ => None,
            },
            _ => None,
        },
        _ => None,
    }
}

pub open spec fn chunk_choices_of(a: Seq<JsonV>) -> Option<Seq<ChoiceChunkV>>
    decreases a.len(),
{
    if a.len() == 0 {
        Some(Seq::empty())
    } else {
        match (choice_chunk_of(a[0]), chunk_choices_of(a.drop_first())) {
            (Some(h), Some(t)) => Some(seq![h] + t),
            _ => None,
        }
    }
}

pub open spec fn chunk_of(v: JsonV) -> Option<ChatCompletionChunkV> {
    match v {
        JsonV::Obj(m) => match (
            obj_lookup(m, "id"@),
            obj_lookup(m, "created"@),
            obj_lookup(m, "model"@),
            obj_lookup(m, "choices"@),
        ) {
            (
                Some(JsonV::Str(id)),
                Some(JsonV::Num(cr)),
                Some(JsonV::Str(model)),
                Some(JsonV::Arr(ch)),
            ) => match (num_as_u64(cr), chunk_choices_of(ch)) {
                (Some(created), Some(choices)) => Some(
                    ChatCompletionChunkV { id, created, model, choices },
                ),
                _ => None,
            },
            _ => None,
        },
        _ => None,
    }
}

pub open spec fn usage_of(v: JsonV) -> Option<Usage> {
    match v {
        JsonV::Obj(m) => match (
            obj_lookup(m, "prompt_tokens"@),
            obj_lookup(m, "completion_tokens"@),
            obj_lookup(m, "total_tokens"@),
        ) {
            (Some(JsonV::Num(p)), Some(JsonV::Num(c)), Some(JsonV::Num(t))) => match (
                num_as_usize(p),
                num_as_usize(c),
                num_as_usize(t),
            ) {
                (Some(pt), Some(ct), Some(tt)) => Some(
                    Usage { prompt_tokens: pt, completion_tokens: ct, total_tokens: tt },
                ),
                _ => None,
            },
            _ => None,
        },
        _ => None,
    }
}

pub open spec fn conv_choice_of(v: JsonV) -> Option<ConversationChoiceV> {
    match v {
        JsonV::Obj(m) => match (obj_lookup(m, "index"@), obj_lookup(m, "message"@)) {
            (Some(JsonV::Num(n)), Some(mv)) => match (num_as_u64(n), message_of(mv)) {
                (Some(ix), Some(msg)) => Some(ConversationChoiceV { index: ix, message: msg }),
                _ => None,
            },
            _ => None,
        },
        _ => None,
    }
}

pub open spec fn resp_choices_of(a: Seq<JsonV>) -> Option<Seq<ConversationChoiceV>>
    decreases a.len(),
{
    if a.len() == 0 {
        Some(Seq::empty())
    } else {
        match (conv_choice_of(a[0]), resp_choices_of(a.drop_first())) {
            (Some(h), Some(t)) => Some(seq![h] + t),
            _ => None,
        }
    }
}

pub open spec fn response_of(v: JsonV) -> Option<ConversationResponseV> {
    match v {
        JsonV::Obj(m) => match (
            obj_lookup(m, "id"@),
            obj_lookup(m, "object"@),
            obj_lookup(m, "created"@),
            obj_lookup(m, "choices"@),
            obj_lookup(m, "usage"@),
        ) {
            (
                Some(JsonV::Str(id)),
                Some(JsonV::Str(object)),
                Some(JsonV::Num(cr)),
                Some(JsonV::Arr(ch)),
                Some(uv),
            ) => match (num_as_u64(cr), resp_choices_of(ch), usage_of(uv)) {
                (Some(created), Some(choices), Some(usage)) => Some(
                    ConversationResponseV { id, object, created, choices, usage },
                ),
                _ => None,
            },
            _ => None,
        },
        _ => None,
    }
}

pub fn delta_from_json(j: &Json) -> (r: Option<DeltaChunk>)
    ensures
        (match r {
            Some(d) => delta_of(j@) == Some(d@),
            None => delta_of(j@) is None,
        }),
{
    match j {
        Json::Obj(m) => {
            let content: Option<String>;
            match obj_find(m, &str_to_chars("content")) {
                None => {
                    content = None;
                },
                Some(ci) => {
                    match &m[ci].value {
                        Json::Str(cs) => {
                            content = Some(chars_to_string(cs));
                        },
                        Json::Null => {
                            content = None;
                        },
                        _ => {
                            return None;
                        },
                    }
                },
            }
            let role: Option<String>;
            match obj_find(m, &str_to_chars("role")) {
                None => {
                    role = None;
                },
                Some(ri) => {
                    match &m[ri].value {
                        Json::Str(rs) => {
                            role = Some(chars_to_string(rs));
                        },
                        Json::Null => {
                            role = None;
                        },
                        _ => {
                            return None;
                        },
                    }
                },
            }
            Some(DeltaChunk { content, role })
        },
        _ => None,
    }
}

fn num_to_u64(n: &JsonNum) -> (r: Option<u64>)
    ensures
        r == num_as_u64(*n),
{
    if !n.neg && n.scale == 0 {
        Some(n.mantissa)
    } else {
        None
    }
}

fn num_to_usize(n: &JsonNum) -> (r: Option<usize>)
    ensures
        r == num_as_usize(*n),
{
    if !n.neg && n.scale == 0 && n.mantissa <= (usize::MAX as u64) {
        Some(n.mantissa as usize)
    } else {
        None
    }
}

pub fn choice_chunk_from_json(j: &Json) -> (r: Option<ChoiceChunk>)
    ensures
        (match r {
            Some(c) => choice_chunk_of(j@) == Some(c@),
            None => choice_chunk_of(j@) is None,
        }),
{
    match j {
        Json::Obj(m) => {
            let delta: DeltaChunk;
            match obj_find(m, &str_to_chars("delta")) {
                None => {
                    return None;
                },
                Some(di) => {
                    match delta_from_json(&m[di].value) {
                        Some(d) => {
                            delta = d;
                        },
                        None => {
                            return None;
                        },
                    }
                },
            }
            let index: usize;
            match obj_find(m, &str_to_chars("index")) {
                None => {
                    return None;
                },
                Some(ii) => {
                    match &m[ii].value {
                        Json::Num(n) => {
                            match num_to_usize(n) {
                                Some(ix) => {
                                    index = ix;
                                },
                                None => {
                                    return None;
                                },
                            }
                        },
                        _ => {
                            return None;
                        },
                    }
                },
            }
            Some(ChoiceChunk { delta, index })
        },
        _ => None,
    }
}

fn chunk_choices_from(arr: &Vec<Json>) -> (r: Option<Vec<ChoiceChunk>>)
    ensures
        (match r {
            Some(v) => chunk_choices_of(jview_list(*arr, 0)) == Some(
                v@.map_values(|c: ChoiceChunk| c@),
            ),
            None => chunk_choices_of(jview_list(*arr, 0)) is None,
        }),
{
    let ghost elems: Seq<JsonV> = jview_list(*arr, 0);
    proof {
        lemma_jview_list_len(*arr, 0);
        assert(elems.skip(0) =~= elems);
    }
    let mut out: Vec<ChoiceChunk> = Vec::new();
    let mut i: usize = 0;
    proof {
        assert(out@.map_values(|c: ChoiceChunk| c@) =~= Seq::<ChoiceChunkV>::empty());
    }
    while i < arr.len()
        invariant
            i <= arr@.len(),
            elems == jview_list(*arr, 0),
            elems.len() == arr@.len(),
            (match chunk_choices_of(elems.skip(i as int)) {
                Some(rest) => chunk_choices_of(elems) == Some(
                    out@.map_values(|c: ChoiceChunk| c@) + rest,
                ),
                None => chunk_choices_of(elems) is None,
            }),
        decreases arr@.len() - i,
    {
        proof {
            lemma_jview_list_index(*arr, 0, i as int);
            assert(elems.skip(i as int)[0] == elems[i as int]);
            assert(elems.skip(i as int).drop_first() =~= elems.skip(i as int + 1));
            assert(elems.skip(i as int).len() == elems.len() - i);
        }
        match choice_chunk_from_json(&arr[i]) {
            None => {
                return None;
            },
            Some(cc) => {
                let ghost old_out: Seq<ChoiceChunk> = out@;
                out.push(cc);
                proof {
                    assert(out@.map_values(|c: ChoiceChunk| c@) =~= old_out.map_values(
                        |c: ChoiceChunk| c@,
                    ).push(cc@));
                    match chunk_choices_of(elems.skip(i as int + 1)) {
                        Some(rest) => {
                            assert(old_out.map_values(|c: ChoiceChunk| c@) + (seq![cc@] + rest)
                                =~= out@.map_values(|c: ChoiceChunk| c@) + rest);
                        },
                        None => {},
                    }
                }
                i = i + 1;
            },
        }
    }
    proof {
        assert(elems.skip(arr@.len() as int) =~= Seq::<JsonV>::empty());
        assert(out@.map_values(|c: ChoiceChunk| c@) + Seq::<ChoiceChunkV>::empty() =~= out@
            .map_values(|c: ChoiceChunk| c@));
    }
    Some(out)
}

/// Decodes one streamed frame, as [`chunk_of`] describes.
pub fn chunk_from_json(j: &Json) -> (r: Option<ChatCompletionChunk>)
    ensures
        (match r {
            Some(c) => chunk_of(j@) == Some(c@),
            None => chunk_of(j@) is None,
        }),
{
    match j {
        Json::Obj(m) => {
            let id: String;
            match obj_find(m, &str_to_chars("id")) {
                None => {
                    return None;
                },
                Some(i) => {
                    match &m[i].value {
                        Json::Str(s) => {
                            id = chars_to_string(s);
                        },
                        _ => {
                            return None;
                        },
                    }
                },
            }
            let created: u64;
            match obj_find(m, &str_to_chars("created")) {
                None => {
                    return None;
                },
                Some(i) => {
                    match &m[i].value {
                        Json::Num(n) => {
                            match num_to_u64(n) {
                                Some(c) => {
                                    created = c;
                                },
                                None => {
                                    return None;
                                },
                            }
                        },
                        _ => {
                            return None;
                        },
                    }
                },
            }
            let model: String;
            match obj_find(m, &str_to_chars("model")) {
                None => {
                    return None;
                },
                Some(i) => {
                    match &m[i].value {
                        Json::Str(s) => {
                            model = chars_to_string(s);
                        },
                        _ => {
                            return None;
                        },
                    }
                },
            }
            let choices: Vec<ChoiceChunk>;
            match obj_find(m, &str_to_chars("choices")) {
                None => {
                    return None;
                },
                Some(i) => {
                    match &m[i].value {
                        Json::Arr(a) => {
                            match chunk_choices_from(a) {
                                Some(cs) => {
                                    choices = cs;
                                },
                                None => {
                                    return None;
                                },
                            }
                        },
                        _ => {
                            return None;
                        },
                    }
                },
            }
            let c = ChatCompletionChunk { id, created, model, choices };
            proof {
                assert(c.choices@.map_values(|x: ChoiceChunk| x@) =~= choices@.map_values(
                    |x: ChoiceChunk| x@,
                ));
                assert(chunk_of(j@) == Some(c@));
            }
            Some(c)
        },
        _ => None,
    }
}

pub fn usage_from_json(j: &Json) -> (r: Option<Usage>)
    ensures
        (match r {
            Some(u) => usage_of(j@) == Some(u),
            None => usage_of(j@) is None,
        }),
{
    match j {
        Json::Obj(m) => {
            let prompt_tokens: usize;
            match obj_find(m, &str_to_chars("prompt_tokens")) {
                None => {
                    return None;
                },
                Some(i) => {
                    match &m[i].value {
                        Json::Num(n) => {
                            match num_to_usize(n) {
                                Some(x) => {
                                    prompt_tokens = x;
                                },
                                None => {
                                    return None;
                                },
                            }
                        },
                        _ => {
                            return None;
                        },
                    }
                },
            }
            let completion_tokens: usize;
            match obj_find(m, &str_to_chars("completion_tokens")) {
                None => {
                    return None;
                },
                Some(i) => {
                    match &m[i].value {
                        Json::Num(n) => {
                            match num_to_usize(n) {
                                Some(x) => {
                                    completion_tokens = x;
                                },
                                None => {
                                    return None;
                                },
                            }
                        },
                        _ => {
                            return None;
                        },
                    }
                },
            }
            let total_tokens: usize;
            match obj_find(m, &str_to_chars("total_tokens")) {
                None => {
                    return None;
                },
                Some(i) => {
                    match &m[i].value {
                        Json::Num(n) => {
                            match num_to_usize(n) {
                                Some(x) => {
                                    total_tokens = x;
                                },
                                None => {
                                    return None;
                                },
                            }
                        },
                        _ => {
                            return None;
                        },
                    }
                },
            }
            Some(Usage { prompt_tokens, completion_tokens, total_tokens })
        },
        _ => None,
    }
}

pub fn conv_choice_from_json(j: &Json) -> (r: Option<ConversationChoice>)
    ensures
        (match r {
            Some(c) => conv_choice_of(j@) == Some(c@),
            None => conv_choice_of(j@) is None,
        }),
{
    match j {
        Json::Obj(m) => {
            let index: u64;
            match obj_find(m, &str_to_chars("index")) {
                None => {
                    return None;
                },
                Some(i) => {
                    match &m[i].value {
                        Json::Num(n) => {
                            match num_to_u64(n) {
                                Some(x) => {
                                    index = x;
                                },
                                None => {
                                    return None;
                                },
                            }
                        },
                        _ => {
                            return None;
                        },
                    }
                },
            }
            let message: Message;
            match obj_find(m, &str_to_chars("message")) {
                None => {
                    return None;
                },
                Some(i) => {
                    match message_from_json(&m[i].value) {
                        Some(msg) => {
                            message = msg;
                        },
                        None => {
                            return None;
                        },
                    }
                },
            }
            Some(ConversationChoice { index, message })
        },
        _ => None,
    }
}

fn resp_choices_from(arr: &Vec<Json>) -> (r: Option<Vec<ConversationChoice>>)
    ensures
        (match r {
            Some(v) => resp_choices_of(jview_list(*arr, 0)) == Some(
                v@.map_values(|c: ConversationChoice| c@),
            ),
            None => resp_choices_of(jview_list(*arr, 0)) is None,
        }),
{
    let ghost elems: Seq<JsonV> = jview_list(*arr, 0);
    proof {
        lemma_jview_list_len(*arr, 0);
        assert(elems.skip(0) =~= elems);
    }
    let mut out: Vec<ConversationChoice> = Vec::new();
    let mut i: usize = 0;
    proof {
        assert(out@.map_values(|c: ConversationChoice| c@) =~= Seq::<ConversationChoiceV>::empty());
    }
    while i < arr.len()
        invariant
            i <= arr@.len(),
            elems == jview_list(*arr, 0),
            elems.len() == arr@.len(),
            (match resp_choices_of(elems.skip(i as int)) {
                Some(rest) => resp_choices_of(elems) == Some(
                    out@.map_values(|c: ConversationChoice| c@) + rest,
                ),
                None => resp_choices_of(elems) is None,
            }),
        decreases arr@.len() - i,
    {
        proof {
            lemma_jview_list_index(*arr, 0, i as int);
            assert(elems.skip(i as int)[0] == elems[i as int]);
            assert(elems.skip(i as int).drop_first() =~= elems.skip(i as int + 1));
            assert(elems.skip(i as int).len() == elems.len() - i);
        }
        match conv_choice_from_json(&arr[i]) {
            None => {
                return None;
            },
            Some(cc) => {
                let ghost old_out: Seq<ConversationChoice> = out@;
                out.push(cc);
                proof {
                    assert(out@.map_values(|c: ConversationChoice| c@) =~= old_out.map_values(
                        |c: ConversationChoice| c@,
                    ).push(cc@));
                    match resp_choices_of(elems.skip(i as int + 1)) {
                        Some(rest) => {
                            assert(old_out.map_values(|c: ConversationChoice| c@) + (seq![cc@]
                                + rest) =~= out@.map_values(|c: ConversationChoice| c@) + rest);
                        },
                        None => {},
                    }
                }
                i = i + 1;
            },
        }
    }
    proof {
        assert(elems.skip(arr@.len() as int) =~= Seq::<JsonV>::empty());
        assert(out@.map_values(|c: ConversationChoice| c@) + Seq::<ConversationChoiceV>::empty()
            =~= out@.map_values(|c: ConversationChoice| c@));
    }
    Some(out)
}

/// Decodes a full response document, as [`response_of`] describes.
pub fn response_from_json(j: &Json) -> (r: Option<ConversationResponse>)
    ensures
        (match r {
            Some(c) => response_of(j@) == Some(c@),
            None => response_of(j@) is None,
        }),
{
    match j {
        Json::Obj(m) => {
            let id: String;
            match obj_find(m, &str_to_chars("id")) {
                None => {
                    return None;
                },
                Some(i) => {
                    match &m[i].value {
                        Json::Str(s) => {
                            id = chars_to_string(s);
                        },
                        _ => {
                            return None;
                        },
                    }
                },
            }
            let object: String;
            match obj_find(m, &str_to_chars("object")) {
                None => {
                    return None;
                },
                Some(i) => {
                    match &m[i].value {
                        Json::Str(s) => {
                            object = chars_to_string(s);
                        },
                        _ => {
                            return None;
                        },
                    }
                },
            }
            let created: u64;
            match obj_find(m, &str_to_chars("created")) {
                None => {
                    return None;
                },
                Some(i) => {
                    match &m[i].value {
                        Json::Num(n) => {
                            match num_to_u64(n) {
                                Some(c) => {
                                    created = c;
                                },
                                None => {
                                    return None;
                                },
                            }
                        },
                        _ => {
                            return None;
                        },
                    }
                },
            }
            let choices: Vec<ConversationChoice>;
            match obj_find(m, &str_to_chars("choices")) {
                None => {
                    return None;
                },
                Some(i) => {
                    match &m[i].value {
                        Json::Arr(a) => {
                            match resp_choices_from(a) {
                                Some(cs) => {
                                    choices = cs;
                                },
                                None => {
                                    return None;
                                },
                            }
                        },
                        _ => {
                            return None;
                        },
                    }
                },
            }
            let usage: Usage;
            match obj_find(m, &str_to_chars("usage")) {
                None => {
                    return None;
                },
                Some(i) => {
                    match usage_from_json(&m[i].value) {
                        Some(u) => {
                            usage = u;
                        },
                        None => {
                            return None;
                        },
                    }
                },
            }
            let c = ConversationResponse { id, object, created, choices, usage };
            proof {
                assert(c.choices@.map_values(|x: ConversationChoice| x@) =~= choices@.map_values(
                    |x: ConversationChoice| x@,
                ));
                assert(response_of(j@) == Some(c@));
            }
            Some(c)
        },
        _ => None,
    }
}

// ---------------------------------------------------------------------------
// The outgoing request body: the set options, each under its own key, the
// messages, and the model name with its default. Absent options are left
// out entirely.
// ---------------------------------------------------------------------------

/// The model used when the caller set none.
pub open spec fn default_model(streaming: bool) -> Seq<char> {
    if streaming {
        "gpt-4"@
    } else {
        "gpt-3.5-turbo"@
    }
}

/// The members of the request body object, in the order they are written.
/// A streaming request always carries `stream: true`.
pub open spec fn body_members(msgs: Seq<MessageV>, o: CompletionOptionsV, streaming: bool) -> Seq<
    (Seq<char>, JsonV),
> {
    seq![
        ("model"@, JsonV::Str(match o.model {
            Some(m) => m,
            None => default_model(streaming),
        })),
    ] + (match o.temperature {
        Some(t) => seq![("temperature"@, JsonV::Num(t))],
        None => Seq::empty(),
    }) + (match o.functions {
        Some(f) => seq![("functions"@, JsonV::Arr(f))],
        None => Seq::empty(),
    }) + (match o.top_p {
        Some(t) => seq![("top_p"@, JsonV::Num(t))],
        None => Seq::empty(),
    }) + (match o.n {
        Some(t) => seq![("n"@, JsonV::Num(t))],
        None => Seq::empty(),
    }) + (if streaming {
        seq![("stream"@, JsonV::Bool(true))]
    } else {
        match o.stream {
            Some(b) => seq![("stream"@, JsonV::Bool(b))],
            None => Seq::empty(),
        }
    }) + (match o.stop {
        Some(s) => seq![("stop"@, JsonV::Str(s))],
        None => Seq::empty(),
    }) + (match o.max_tokens {
        Some(x) => seq![("max_tokens"@, JsonV::Num(num_of_usize(x)))],
        None => Seq::empty(),
    }) + (match o.presence_penalty {
        Some(x) => seq![("presence_penalty"@, JsonV::Num(num_of_usize(x)))],
        None => Seq::empty(),
    }) + (match o.frequency_penalty {
        Some(x) => seq![("frequency_penalty"@, JsonV::Num(num_of_usize(x)))],
        None => Seq::empty(),
    }) + (match o.user {
        Some(x) => seq![("user"@, JsonV::Num(num_of_isize(x)))],
        None => Seq::empty(),
    }) + seq![("messages"@, JsonV::Arr(msgs.map_values(|m: MessageV| message_jv(m))))]
}

pub open spec fn body_jv(msgs: Seq<MessageV>, o: CompletionOptionsV, streaming: bool) -> JsonV {
    JsonV::Obj(body_members(msgs, o, streaming))
}

fn push_member(mems: &mut Vec<JsonMember>, key: &str, value: Json)
    ensures
        jview_pairs(*final(mems), 0) == jview_pairs(*old(mems), 0) + seq![(key@, jview(value))],
{
    let m = JsonMember { key: str_to_chars(key), value };
    let ghost pre: Vec<JsonMember> = *mems;
    let ghost mg: JsonMember = m;
    mems.push(m);
    proof {
        lemma_jview_pairs_snoc(pre, *mems, mg, 0);
    }
}

/// Builds the request body for the given messages and options; a streaming
/// request gets `stream: true` whatever the options say.
#[verifier::spinoff_prover]
#[verifier::rlimit(100)]
pub fn request_body(messages: &Vec<Message>, options: CompletionOptions, streaming: bool) -> (r:
    Json)
    ensures
        r@ == body_jv(messages@.map_values(|m: Message| m@), options@, streaming),
{
    let ghost msgs_v: Seq<MessageV> = messages@.map_values(|m: Message| m@);
    let ghost ov: CompletionOptionsV = options@;
    let CompletionOptions {
        model,
        temperature,
        functions,
        top_p,
        n,
        stream,
        stop,
        max_tokens,
        presence_penalty,
        frequency_penalty,
        user,
    } = options;
    let mut mems: Vec<JsonMember> = Vec::new();
    proof {
        assert(jview_pairs(mems, 0) =~= Seq::<(Seq<char>, JsonV)>::empty());
    }
    let model_chars: Vec<char> = match model {
        Some(m) => str_to_chars(m.as_str()),
        None => if streaming {
            str_to_chars("gpt-4")
        } else {
            str_to_chars("gpt-3.5-turbo")
        },
    };
    push_member(&mut mems, "model", Json::Str(model_chars));
    if let Some(t) = temperature {
        push_member(&mut mems, "temperature", Json::Num(t));
    }
    if let Some(f) = functions {
        push_member(&mut mems, "functions", Json::Arr(f));
    }
    if let Some(t) = top_p {
        push_member(&mut mems, "top_p", Json::Num(t));
    }
    if let Some(t) = n {
        push_member(&mut mems, "n", Json::Num(t));
    }
    if streaming {
        push_member(&mut mems, "stream", Json::Bool(true));
    } else {
        if let Some(b) = stream {
            push_member(&mut mems, "stream", Json::Bool(b));
        }
    }
    if let Some(s) = stop {
        push_member(&mut mems, "stop", Json::Str(str_to_chars(s.as_str())));
    }
    if let Some(x) = max_tokens {
        push_member(&mut mems, "max_tokens", Json::Num(usize_num(x)));
    }
    if let Some(x) = presence_penalty {
        push_member(&mut mems, "presence_penalty", Json::Num(usize_num(x)));
    }
    if let Some(x) = frequency_penalty {
        push_member(&mut mems, "frequency_penalty", Json::Num(usize_num(x)));
    }
    if let Some(x) = user {
        push_member(&mut mems, "user", Json::Num(isize_num(x)));
    }
    let mut arr: Vec<Json> = Vec::new();
    let mut i: usize = 0;
    proof {
        assert(jview_list(arr, 0) =~= Seq::<JsonV>::empty());
        assert(msgs_v.take(0).map_values(|m: MessageV| message_jv(m)) =~= Seq::<JsonV>::empty());
    }
    while i < messages.len()
        invariant
            i <= messages@.len(),
            msgs_v == messages@.map_values(|m: Message| m@),
            msgs_v.len() == messages@.len(),
            jview_list(arr, 0) == msgs_v.take(i as int).map_values(|m: MessageV| message_jv(m)),
        decreases messages@.len() - i,
    {
        let mj = message_to_json(&messages[i]);
        let ghost pre: Vec<Json> = arr;
        let ghost mjg: Json = mj;
        arr.push(mj);
        proof {
            lemma_jview_list_snoc(pre, arr, mjg, 0);
            assert(msgs_v[i as int] == messages@[i as int]@);
            assert(msgs_v.take(i as int + 1) =~= msgs_v.take(i as int).push(msgs_v[i as int]));
            assert(msgs_v.take(i as int + 1).map_values(|m: MessageV| message_jv(m)) =~= msgs_v
                .take(i as int).map_values(|m: MessageV| message_jv(m)).push(
                message_jv(msgs_v[i as int]),
            ));
        }
        i = i + 1;
    }
    proof {
        assert(msgs_v.take(msgs_v.len() as int) =~= msgs_v);
    }
    push_member(&mut mems, "messages", Json::Arr(arr));
    proof {
        assert(jview_pairs(mems, 0) =~= body_members(msgs_v, ov, streaming));
    }
    Json::Obj(mems)
}

/// Law: the request body holds exactly the set options, plus `messages` and
/// a `model` (defaulted when unset, forced `stream: true` when streaming);
/// no other key appears, and no key holds `null`.
#[verifier::spinoff_prover]
#[verifier::rlimit(100)]
pub proof fn lemma_body_fields(msgs: Seq<MessageV>, o: CompletionOptionsV, streaming: bool)
    ensures
        obj_lookup(body_members(msgs, o, streaming), "model"@) == Some(
            JsonV::Str(match o.model {
                Some(m) => m,
                None => default_model(streaming),
            }),
        ),
        obj_lookup(body_members(msgs, o, streaming), "temperature"@) == (match o.temperature {
            Some(t) => Some(JsonV::Num(t)),
            None => None::<JsonV>,
        }),
        obj_lookup(body_members(msgs, o, streaming), "functions"@) == (match o.functions {
            Some(f) => Some(JsonV::Arr(f)),
            None => None::<JsonV>,
        }),
        obj_lookup(body_members(msgs, o, streaming), "top_p"@) == (match o.top_p {
            Some(t) => Some(JsonV::Num(t)),
            None => None::<JsonV>,
        }),
        obj_lookup(body_members(msgs, o, streaming), "n"@) == (match o.n {
            Some(t) => Some(JsonV::Num(t)),
            None => None::<JsonV>,
        }),
        obj_lookup(body_members(msgs, o, streaming), "stream"@) == (if streaming {
            Some(JsonV::Bool(true))
        } else {
            match o.stream {
                Some(b) => Some(JsonV::Bool(b)),
                None => None::<JsonV>,
            }
        }),
        obj_lookup(body_members(msgs, o, streaming), "stop"@) == (match o.stop {
            Some(s) => Some(JsonV::Str(s)),
            None => None::<JsonV>,
        }),
        obj_lookup(body_members(msgs, o, streaming), "max_tokens"@) == (match o.max_tokens {
            Some(x) => Some(JsonV::Num(num_of_usize(x))),
            None => None::<JsonV>,
        }),
        obj_lookup(body_members(msgs, o, streaming), "presence_penalty"@) == (match o
            .presence_penalty {
            Some(x) => Some(JsonV::Num(num_of_usize(x))),
            None => None::<JsonV>,
        }),
        obj_lookup(body_members(msgs, o, streaming), "frequency_penalty"@) == (match o
            .frequency_penalty {
            Some(x) => Some(JsonV::Num(num_of_usize(x))),
            None => None::<JsonV>,
        }),
        obj_lookup(body_members(msgs, o, streaming), "user"@) == (match o.user {
            Some(x) => Some(JsonV::Num(num_of_isize(x))),
            None => None::<JsonV>,
        }),
        obj_lookup(body_members(msgs, o, streaming), "messages"@) == Some(
            JsonV::Arr(msgs.map_values(|m: MessageV| message_jv(m))),
        ),
        forall|k: Seq<char>|
            !(k == "model"@ || k == "temperature"@ || k == "functions"@ || k == "top_p"@ || k
                == "n"@ || k == "stream"@ || k == "stop"@ || k == "max_tokens"@ || k
                == "presence_penalty"@ || k == "frequency_penalty"@ || k == "user"@ || k
                == "messages"@) ==> #[trigger] obj_lookup(body_members(msgs, o, streaming), k)
                is None,
        forall|k: Seq<char>| #[trigger] obj_lookup(body_members(msgs, o, streaming), k) != Some(
            JsonV::Null,
        ),
{
    reveal_strlit("model");
    reveal_strlit("temperature");
    reveal_strlit("functions");
    reveal_strlit("top_p");
    reveal_strlit("n");
    reveal_strlit("stream");
    reveal_strlit("stop");
    reveal_strlit("max_tokens");
    reveal_strlit("presence_penalty");
    reveal_strlit("frequency_penalty");
    reveal_strlit("user");
    reveal_strlit("messages");
    assert("model"@.len() == 5 && "model"@[0] == 'm');
    assert("temperature"@.len() == 11);
    assert("functions"@.len() == 9);
    assert("top_p"@.len() == 5 && "top_p"@[0] == 't');
    assert("n"@.len() == 1);
    assert("stream"@.len() == 6);
    assert("stop"@.len() == 4 && "stop"@[0] == 's');
    assert("max_tokens"@.len() == 10);
    assert("presence_penalty"@.len() == 16);
    assert("frequency_penalty"@.len() == 17);
    assert("user"@.len() == 4 && "user"@[0] == 'u');
    assert("messages"@.len() == 8);
    let s1 = seq![
        ("model"@, JsonV::Str(match o.model {
            Some(m) => m,
            None => default_model(streaming),
        })),
    ];
    let s2 = match o.temperature {
        Some(t) => seq![("temperature"@, JsonV::Num(t))],
        None => Seq::<(Seq<char>, JsonV)>::empty(),
    };
    let s3 = match o.functions {
        Some(f) => seq![("functions"@, JsonV::Arr(f))],
        None => Seq::<(Seq<char>, JsonV)>::empty(),
    };
    let s4 = match o.top_p {
        Some(t) => seq![("top_p"@, JsonV::Num(t))],
        None => Seq::<(Seq<char>, JsonV)>::empty(),
    };
    let s5 = match o.n {
        Some(t) => seq![("n"@, JsonV::Num(t))],
        None => Seq::<(Seq<char>, JsonV)>::empty(),
    };
    let s6 = if streaming {
        seq![("stream"@, JsonV::Bool(true))]
    } else {
        match o.stream {
            Some(b) => seq![("stream"@, JsonV::Bool(b))],
            None => Seq::<(Seq<char>, JsonV)>::empty(),
        }
    };
    let s7 = match o.stop {
        Some(s) => seq![("stop"@, JsonV::Str(s))],
        None => Seq::<(Seq<char>, JsonV)>::empty(),
    };
    let s8 = match o.max_tokens {
        Some(x) => seq![("max_tokens"@, JsonV::Num(num_of_usize(x)))],
        None => Seq::<(Seq<char>, JsonV)>::empty(),
    };
    let s9 = match o.presence_penalty {
        Some(x) => seq![("presence_penalty"@, JsonV::Num(num_of_usize(x)))],
        None => Seq::<(Seq<char>, JsonV)>::empty(),
    };
    let s10 = match o.frequency_penalty {
        Some(x) => seq![("frequency_penalty"@, JsonV::Num(num_of_usize(x)))],
        None => Seq::<(Seq<char>, JsonV)>::empty(),
    };
    let s11 = match o.user {
        Some(x) => seq![("user"@, JsonV::Num(num_of_isize(x)))],
        None => Seq::<(Seq<char>, JsonV)>::empty(),
    };
    let s12 = seq![("messages"@, JsonV::Arr(msgs.map_values(|m: MessageV| message_jv(m))))];
    let bm = body_members(msgs, o, streaming);
    assert(bm == s1 + s2 + s3 + s4 + s5 + s6 + s7 + s8 + s9 + s10 + s11 + s12);
    assert forall|k: Seq<char>|
        #[trigger] obj_lookup(bm, k) == (if k == "model"@ {
            obj_lookup(s1, k)
        } else if k == "temperature"@ {
            obj_lookup(s2, k)
        } else if k == "functions"@ {
            obj_lookup(s3, k)
        } else if k == "top_p"@ {
            obj_lookup(s4, k)
        } else if k == "n"@ {
            obj_lookup(s5, k)
        } else if k == "stream"@ {
            obj_lookup(s6, k)
        } else if k == "stop"@ {
            obj_lookup(s7, k)
        } else if k == "max_tokens"@ {
            obj_lookup(s8, k)
        } else if k == "presence_penalty"@ {
            obj_lookup(s9, k)
        } else if k == "frequency_penalty"@ {
            obj_lookup(s10, k)
        } else if k == "user"@ {
            obj_lookup(s11, k)
        } else if k == "messages"@ {
            obj_lookup(s12, k)
        } else {
            None::<JsonV>
        }) by {
        lemma_obj_lookup_concat(s1 + s2 + s3 + s4 + s5 + s6 + s7 + s8 + s9 + s10 + s11, s12, k);
        lemma_obj_lookup_concat(s1 + s2 + s3 + s4 + s5 + s6 + s7 + s8 + s9 + s10, s11, k);
        lemma_obj_lookup_concat(s1 + s2 + s3 + s4 + s5 + s6 + s7 + s8 + s9, s10, k);
        lemma_obj_lookup_concat(s1 + s2 + s3 + s4 + s5 + s6 + s7 + s8, s9, k);
        lemma_obj_lookup_concat(s1 + s2 + s3 + s4 + s5 + s6 + s7, s8, k);
        lemma_obj_lookup_concat(s1 + s2 + s3 + s4 + s5 + s6, s7, k);
        lemma_obj_lookup_concat(s1 + s2 + s3 + s4 + s5, s6, k);
        lemma_obj_lookup_concat(s1 + s2 + s3 + s4, s5, k);
        lemma_obj_lookup_concat(s1 + s2 + s3, s4, k);
        lemma_obj_lookup_concat(s1 + s2, s3, k);
        lemma_obj_lookup_concat(s1, s2, k);
        lemma_obj_lookup_single(s1[0], k);
        if s2.len() > 0 {
            lemma_obj_lookup_single(s2[0], k);
            assert(s2 =~= seq![s2[0]]);
        }
        if s3.len() > 0 {
            lemma_obj_lookup_single(s3[0], k);
            assert(s3 =~= seq![s3[0]]);
        }
        if s4.len() > 0 {
            lemma_obj_lookup_single(s4[0], k);
            assert(s4 =~= seq![s4[0]]);
        }
        if s5.len() > 0 {
            lemma_obj_lookup_single(s5[0], k);
            assert(s5 =~= seq![s5[0]]);
        }
        if s6.len() > 0 {
            lemma_obj_lookup_single(s6[0], k);
            assert(s6 =~= seq![s6[0]]);
        }
        if s7.len() > 0 {
            lemma_obj_lookup_single(s7[0], k);
            assert(s7 =~= seq![s7[0]]);
        }
        if s8.len() > 0 {
            lemma_obj_lookup_single(s8[0], k);
            assert(s8 =~= seq![s8[0]]);
        }
        if s9.len() > 0 {
            lemma_obj_lookup_single(s9[0], k);
            assert(s9 =~= seq![s9[0]]);
        }
        if s10.len() > 0 {
            lemma_obj_lookup_single(s10[0], k);
            assert(s10 =~= seq![s10[0]]);
        }
        if s11.len() > 0 {
            lemma_obj_lookup_single(s11[0], k);
            assert(s11 =~= seq![s11[0]]);
        }
        lemma_obj_lookup_single(s12[0], k);
        assert(s1 =~= seq![s1[0]]);
        assert(s12 =~= seq![s12[0]]);
    }
}

} // verus!
