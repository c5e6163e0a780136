//! Outbound request shaping: the JSON texts of the chat-completion request
//! bodies, built and escaped by the library itself so that every byte put
//! on the wire is pinned down, and the bearer authorization header.

use vstd::prelude::*;

verus! {

use vstd::string::StringExecFns;
use crate::llm::{Message, MessageView, msg_views};
use crate::text::from_chars;

/// The character for a hexadecimal digit value, lower case.
pub open spec fn hex_digit_char(d: int) -> char {
    if d < 10 {
        ((48 + d) as u8) as char
    } else {
        ((87 + d) as u8) as char
    }
}

/// The JSON string escaping of one character: quote, backslash and the
/// named control characters take their two-character escapes, any other
/// control character its `\u00..` form, and everything else stands as is.
pub open spec fn esc_char(c: char) -> Seq<char> {
    let u = c as u32;
    if c == '"' {
        seq!['\\', '"']
    } else if c == '\\' {
        seq!['\\', '\\']
    } else if c == '\n' {
        seq!['\\', 'n']
    } else if c == '\r' {
        seq!['\\', 'r']
    } else if c == '\t' {
        seq!['\\', 't']
    } else if u == 8 {
        seq!['\\', 'b']
    } else if u == 12 {
        seq!['\\', 'f']
    } else if u < 32 {
        seq!['\\', 'u', '0', '0', hex_digit_char((u / 16) as int), hex_digit_char((u % 16) as int)]
    } else {
        seq![c]
    }
}

/// The JSON string escaping of a text.
pub open spec fn json_escaped(s: Seq<char>) -> Seq<char>
    decreases s.len(),
{
    if s.len() == 0 {
        Seq::<char>::empty()
    } else {
        esc_char(s[0]) + json_escaped(s.skip(1))
    }
}

/// Escaping examined from an arbitrary start: what remains of `s` at `i`.
proof fn lemma_json_escaped_step(s: Seq<char>, i: int)
    requires
        0 <= i < s.len(),
    ensures
        json_escaped(s.skip(i)) == esc_char(s[i]) + json_escaped(s.skip(i + 1)),
{
    let t = s.skip(i);
    assert(t[0] == s[i]);
    assert(t.skip(1) =~= s.skip(i + 1));
}

/// The escape of one character, executably.
fn esc_char_exec(c: char) -> (r: Vec<char>)
    ensures
        r@ == esc_char(c),
{
    let u = c as u32;
    let mut r: Vec<char> = Vec::new();
    if c == '"' {
        r.push('\\');
        r.push('"');
    } else if c == '\\' {
        r.push('\\');
        r.push('\\');
    } else if c == '\n' {
        r.push('\\');
        r.push('n');
    } else if c == '\r' {
        r.push('\\');
        r.push('r');
    } else if c == '\t' {
        r.push('\\');
        r.push('t');
    } else if u == 8 {
        r.push('\\');
        r.push('b');
    } else if u == 12 {
        r.push('\\');
        r.push('f');
    } else if u < 32 {
        r.push('\\');
        r.push('u');
        r.push('0');
        r.push('0');
        let hi = u / 16;
        let lo = u % 16;
        r.push(if hi < 10 {
            ((48 + hi) as u8) as char
        } else {
            ((87 + hi) as u8) as char
        });
        r.push(if lo < 10 {
            ((48 + lo) as u8) as char
        } else {
            ((87 + lo) as u8) as char
        });
    } else {
        r.push(c);
    }
    proof {
        assert(r@ =~= esc_char(c));
    }
    r
}

/// Escape a text for inclusion in a JSON string.
pub fn escape_json(v: &Vec<char>) -> (r: Vec<char>)
    ensures
        r@ == json_escaped(v@),
{
    let mut out: Vec<char> = Vec::new();
    let mut i: usize = 0;
    proof {
        assert(v@.skip(0) =~= v@);
        assert(out@ + json_escaped(v@) =~= json_escaped(v@));
    }
    while i < v.len()
        invariant
            i <= v@.len(),
            json_escaped(v@) == out@ + json_escaped(v@.skip(i as int)),
        decreases v@.len() - i,
    {
        let ghost i0 = i as int;
        let ghost out0 = out@;
        proof {
            lemma_json_escaped_step(v@, i0);
        }
        let piece = esc_char_exec(v[i]);
        let mut j: usize = 0;
        while j < piece.len()
            invariant
                j <= piece@.len(),
                out@ == out0 + piece@.subrange(0, j as int),
            decreases piece@.len() - j,
        {
            out.push(piece[j]);
            j = j + 1;
            proof {
                assert(out@ =~= out0 + piece@.subrange(0, j as int));
            }
        }
        i = i + 1;
        proof {
            let rest = json_escaped(v@.skip(i as int));
            assert(out@ =~= out0 + esc_char(v@[i0]));
            assert((out0 + esc_char(v@[i0])) + rest =~= out0 + (esc_char(v@[i0]) + rest));
        }
    }
    proof {
        assert(v@.skip(i as int) =~= Seq::<char>::empty());
        assert(out@ + Seq::<char>::empty() =~= out@);
    }
    out
}

/// The JSON object of one message.
pub open spec fn spec_message_obj(m: MessageView) -> Seq<char> {
    "{\"role\":\""@ + json_escaped(m.role) + "\",\"content\":\""@ + json_escaped(m.content)
        + "\"}"@
}

/// The comma-joined JSON objects of the messages, without brackets.
pub open spec fn spec_messages_inner(ms: Seq<MessageView>) -> Seq<char>
    decreases ms.len(),
{
    if ms.len() == 0 {
        Seq::<char>::empty()
    } else if ms.len() == 1 {
        spec_message_obj(ms[0])
    } else {
        spec_messages_inner(ms.drop_last()) + ","@ + spec_message_obj(ms.last())
    }
}

/// The JSON array of the messages.
pub open spec fn spec_messages_array(ms: Seq<MessageView>) -> Seq<char> {
    "["@ + spec_messages_inner(ms) + "]"@
}

/// Append the characters of a string slice to a character vector.
fn push_str_chars(out: &mut Vec<char>, s: &str)
    ensures
        final(out)@ == old(out)@ + s@,
{
    let v = crate::text::to_chars(s);
    crate::text::append_vec(out, &v);
}

/// The JSON object of one message, executably.
fn message_obj(m: &Message) -> (r: Vec<char>)
    ensures
        r@ == spec_message_obj(m@),
{
    let mut out: Vec<char> = Vec::new();
    proof {
        assert(out@ + "{\"role\":\""@ =~= "{\"role\":\""@);
    }
    push_str_chars(&mut out, "{\"role\":\"");
    let role_esc = escape_json(&crate::text::to_chars(m.role.as_str()));
    crate::text::append_vec(&mut out, &role_esc);
    push_str_chars(&mut out, "\",\"content\":\"");
    let content_esc = escape_json(&crate::text::to_chars(m.content.as_str()));
    crate::text::append_vec(&mut out, &content_esc);
    push_str_chars(&mut out, "\"}");
    proof {
        assert(out@ =~= spec_message_obj(m@));
    }
    out
}

/// The JSON array of the messages, executably.
pub fn messages_array(ms: &Vec<Message>) -> (r: Vec<char>)
    ensures
        r@ == spec_messages_array(msg_views(ms@)),
{
    let mut out: Vec<char> = Vec::new();
    push_str_chars(&mut out, "[");
    let ghost views = msg_views(ms@);
    let mut i: usize = 0;
    proof {
        assert(out@ =~= "["@ + spec_messages_inner(views.subrange(0, 0)));
    }
    while i < ms.len()
        invariant
            i <= ms@.len(),
            views == msg_views(ms@),
            out@ == "["@ + spec_messages_inner(views.subrange(0, i as int)),
        decreases ms@.len() - i,
    {
        let ghost pre = views.subrange(0, i0_spec(i));
        if i > 0 {
            push_str_chars(&mut out, ",");
        }
        let obj = message_obj(&ms[i]);
        crate::text::append_vec(&mut out, &obj);
        i = i + 1;
        proof {
            let cur = views.subrange(0, i as int);
            assert(cur.drop_last() =~= views.subrange(0, i as int - 1));
            assert(cur.last() == views[i as int - 1]);
            assert(views[i as int - 1] == ms@[i as int - 1]@);
            if i as int - 1 == 0 {
                assert(out@ =~= "["@ + spec_messages_inner(cur));
            } else {
                assert(out@ =~= "["@ + spec_messages_inner(cur));
            }
        }
    }
    push_str_chars(&mut out, "]");
    proof {
        assert(views.subrange(0, views.len() as int) =~= views);
        assert(out@ =~= spec_messages_array(views));
    }
    out
}

/// Spec-level alias used in loop snapshots.
pub open spec fn i0_spec(i: usize) -> int {
    i as int
}

/// The streaming chat request body of the hosted ChatGPT-style backend.
pub open spec fn spec_chat_body(model: Seq<char>, ms: Seq<MessageView>) -> Seq<char> {
    "{\"model\":\""@ + json_escaped(model) + "\",\"messages\":"@ + spec_messages_array(ms)
        + ",\"stream\":true,\"temperature\":0.1}"@
}

/// Build the streaming ChatGPT-style request body.
pub fn chat_request_body(model: &str, ms: &Vec<Message>) -> (r: String)
    ensures
        r@ == spec_chat_body(model@, msg_views(ms@)),
{
    let mut out: Vec<char> = Vec::new();
    push_str_chars(&mut out, "{\"model\":\"");
    let model_esc = escape_json(&crate::text::to_chars(model));
    crate::text::append_vec(&mut out, &model_esc);
    push_str_chars(&mut out, "\",\"messages\":");
    let arr = messages_array(ms);
    crate::text::append_vec(&mut out, &arr);
    push_str_chars(&mut out, ",\"stream\":true,\"temperature\":0.1}");
    proof {
        assert(out@ =~= spec_chat_body(model@, msg_views(ms@)));
    }
    from_chars(&out)
}

/// The streaming chat request body of the hosted ChatGLM backend.
pub open spec fn spec_glm_body(model: Seq<char>, ms: Seq<MessageView>) -> Seq<char> {
    "{\"model\":\""@ + json_escaped(model) + "\",\"messages\":"@ + spec_messages_array(ms)
        + ",\"stream\":true}"@
}

/// Build the streaming ChatGLM request body.
pub fn glm_request_body(model: &str, ms: &Vec<Message>) -> (r: String)
    ensures
        r@ == spec_glm_body(model@, msg_views(ms@)),
{
    let mut out: Vec<char> = Vec::new();
    push_str_chars(&mut out, "{\"model\":\"");
    let model_esc = escape_json(&crate::text::to_chars(model));
    crate::text::append_vec(&mut out, &model_esc);
    push_str_chars(&mut out, "\",\"messages\":");
    let arr = messages_array(ms);
    crate::text::append_vec(&mut out, &arr);
    push_str_chars(&mut out, ",\"stream\":true}");
    proof {
        assert(out@ =~= spec_glm_body(model@, msg_views(ms@)));
    }
    from_chars(&out)
}

/// The streaming request body of the self-hosted InfiniLM server.
pub open spec fn spec_infinilm_body(ms: Seq<MessageView>) -> Seq<char> {
    "{\"inputs\":"@ + spec_messages_array(ms)
        + ",\"encoding\":\"text\",\"temperature\":0.9,\"top-k\":100,\"top-p\":0.9,\"stream\":true}"@
}

/// Build the streaming InfiniLM request body.
pub fn infinilm_request_body(ms: &Vec<Message>) -> (r: String)
    ensures
        r@ == spec_infinilm_body(msg_views(ms@)),
{
    let mut out: Vec<char> = Vec::new();
    push_str_chars(&mut out, "{\"inputs\":");
    let arr = messages_array(ms);
    crate::text::append_vec(&mut out, &arr);
    push_str_chars(
        &mut out,
        ",\"encoding\":\"text\",\"temperature\":0.9,\"top-k\":100,\"top-p\":0.9,\"stream\":true}",
    );
    proof {
        assert(out@ =~= spec_infinilm_body(msg_views(ms@)));
    }
    from_chars(&out)
}

/// The non-streaming completion request body used by the one-shot call.
pub open spec fn spec_completion_body(model: Seq<char>, ms: Seq<MessageView>) -> Seq<char> {
    "{\"model\":\""@ + json_escaped(model) + "\",\"messages\":"@ + spec_messages_array(ms)
        + ",\"temperature\":0.1}"@
}

/// Build the non-streaming completion request body.
pub fn completion_request_body(model: &str, ms: &Vec<Message>) -> (r: String)
    ensures
        r@ == spec_completion_body(model@, msg_views(ms@)),
{
    let mut out: Vec<char> = Vec::new();
    push_str_chars(&mut out, "{\"model\":\"");
    let model_esc = escape_json(&crate::text::to_chars(model));
    crate::text::append_vec(&mut out, &model_esc);
    push_str_chars(&mut out, "\",\"messages\":");
    let arr = messages_array(ms);
    crate::text::append_vec(&mut out, &arr);
    push_str_chars(&mut out, ",\"temperature\":0.1}");
    proof {
        assert(out@ =~= spec_completion_body(model@, msg_views(ms@)));
    }
    from_chars(&out)
}

/// The bearer authorization header value for a token.
pub fn bearer_header(token: &str) -> (r: String)
    ensures
        r@ == "Bearer "@ + token@,
{
    let mut r = String::from_str("Bearer ");
    r.append(token);
    r
}

} // verus!
