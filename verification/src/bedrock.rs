//! AWS Bedrock generation provider: the pure parts of a Converse call.
//!
//! The call itself runs the `aws bedrock-runtime converse` command; this
//! module decides what goes into it (model, messages, system prompt, the
//! argument list) and what comes out of it (the text, the token counts, the
//! class of a failure).
use vstd::prelude::*;
use crate::json::{field_of, get_field, JsonValue};
use crate::text::{chars_eq, chars_of, contains_chars, decimal, digit_char, has_sub, opt_str_view, push_all, push_str, string_from_chars};

verus! {

/// A Bedrock provider: the default model and the AWS region.
#[derive(Debug)]
pub struct BedrockProvider {
    model_id: String,
    region: String,
}

/// How a failed Converse call is reported.
#[derive(Debug)]
pub enum BedrockFailure {
    /// The service throttled the call.
    RateLimited,
    /// Any other failure, with its message.
    ProviderError(String),
}

/// A failed call is a rate limit when its error output mentions
/// throttling; otherwise a provider error quoting that output.
pub open spec fn failure_class(stderr: Seq<char>) -> Option<Seq<char>> {
    if has_sub(stderr, "ThrottlingException"@) || has_sub(stderr, "TooManyRequests"@) {
        None
    } else {
        Some("Bedrock converse failed: "@ + stderr)
    }
}

/// The text of a Converse reply: the `text` strings of
/// `output.message.content`, concatenated; empty when that is no array.
pub open spec fn reply_text(resp: JsonValue) -> Seq<char> {
    match field_of(resp, "output"@) {
        Some(o) => match field_of(o, "message"@) {
            Some(m) => match field_of(m, "content"@) {
                Some(JsonValue::Array { items, .. }) => concat_texts(items@, items@.len() as int),
                _ => Seq::empty(),
            },
            None => Seq::empty(),
        },
        None => Seq::empty(),
    }
}

/// The `text` strings of the first `k` items, concatenated.
pub open spec fn concat_texts(items: Seq<JsonValue>, k: int) -> Seq<char>
    decreases k,
{
    if k <= 0 {
        Seq::empty()
    } else {
        concat_texts(items, k - 1) + match field_of(items[k - 1], "text"@) {
            Some(JsonValue::Str(t)) => t@,
            _ => Seq::empty(),
        }
    }
}

/// The value of a JSON number that is an unsigned integer, as `as_u64`
/// reads it.
pub open spec fn number_u64(text: Seq<char>) -> Option<u64> {
    if exists|n: u64| decimal(n as nat) == text {
        Some(choose|n: u64| decimal(n as nat) == text)
    } else {
        None
    }
}

/// A usage counter of a Converse reply (`usage.<name>`), narrowed to 32 bits.
pub open spec fn usage_count(resp: JsonValue, name: Seq<char>) -> Option<u32> {
    match field_of(resp, "usage"@) {
        Some(u) => match field_of(u, name) {
            Some(JsonValue::Number(t)) => match number_u64(t@) {
                Some(n) => Some(n as u32),
                None => None,
            },
            _ => None,
        },
        None => None,
    }
}

proof fn lemma_decimal_injective(a: nat, b: nat)
    requires
        decimal(a) == decimal(b),
    ensures
        a == b,
    decreases a + b,
{
    lemma_decimal_len(a);
    lemma_decimal_len(b);
    if a >= 10 && b >= 10 {
        assert(decimal(a).drop_last() == decimal(a / 10));
        assert(decimal(b).drop_last() == decimal(b / 10));
        lemma_decimal_injective(a / 10, b / 10);
        assert(decimal(a).last() == crate::text::digit_char(a % 10));
        assert(decimal(b).last() == crate::text::digit_char(b % 10));
        lemma_digit_injective(a % 10, b % 10);
    } else if a < 10 && b < 10 {
        assert(decimal(a)[0] == crate::text::digit_char(a));
        assert(decimal(b)[0] == crate::text::digit_char(b));
        lemma_digit_injective(a, b);
    } else if a < 10 {
        lemma_decimal_len(b / 10);
    } else {
        lemma_decimal_len(a / 10);
    }
}

proof fn lemma_decimal_len(a: nat)
    ensures
        decimal(a).len() >= 1,
        a < 10 <==> decimal(a).len() == 1,
    decreases a,
{
    if a >= 10 {
        lemma_decimal_len(a / 10);
    }
}

proof fn lemma_digit_injective(a: nat, b: nat)
    requires
        a < 10,
        b < 10,
        crate::text::digit_char(a) == crate::text::digit_char(b),
    ensures
        a == b,
{
}

fn digit_value(c: char) -> (r: Option<u64>)
    ensures
        match r {
            Some(d) => d < 10 && crate::text::digit_char(d as nat) == c,
            None => !('0' <= c <= '9'),
        },
{
    if c == '0' {
        Some(0)
    } else if c == '1' {
        Some(1)
    } else if c == '2' {
        Some(2)
    } else if c == '3' {
        Some(3)
    } else if c == '4' {
        Some(4)
    } else if c == '5' {
        Some(5)
    } else if c == '6' {
        Some(6)
    } else if c == '7' {
        Some(7)
    } else if c == '8' {
        Some(8)
    } else if c == '9' {
        Some(9)
    } else {
        None
    }
}

/// Reads a JSON number text as an unsigned 64-bit integer.
pub fn parse_number_u64(text: &str) -> (r: Option<u64>)
    ensures
        r == number_u64(text@),
{
    let c = chars_of(text);
    if c.len() == 0 {
        proof {
            assert forall|n: u64| decimal(n as nat) != text@ by {
                lemma_decimal_len(n as nat);
            }
        }
        return None;
    }
    if c.len() > 1 && c[0] == '0' {
        proof {
            assert forall|n: u64| decimal(n as nat) != text@ by {
                lemma_leading_digit(n as nat);
                lemma_decimal_len(n as nat);
            }
        }
        return None;
    }
    let mut v: u64 = 0;
    let mut i: usize = 0;
    while i < c.len()
        invariant
            i <= c@.len(),
            c@ == text@,
            c@.len() > 0,
            c@.len() > 1 ==> c@[0] != '0',
            i > 0 ==> decimal(v as nat) == c@.take(i as int),
            i == 0 ==> v == 0,
        decreases c@.len() - i,
    {
        let d = match digit_value(c[i]) {
            Some(d) => d,
            None => {
                proof {
                    assert forall|n: u64| decimal(n as nat) != text@ by {
                        lemma_all_digits(n as nat);
                        if decimal(n as nat) == text@ {
                            assert(c@[i as int] == decimal(n as nat)[i as int]);
                        }
                    }
                }
                return None;
            },
        };
        if i > 0 && v > (u64::MAX - d) / 10 {
            proof {
                assert forall|n: u64| decimal(n as nat) != text@ by {
                    if decimal(n as nat) == text@ {
                        lemma_decimal_prefix(n as nat, (i + 1) as nat);
                        let m = decimal_prefix_value(n as nat, (i + 1) as nat);
                        assert(m <= n);
                        assert(decimal(m) == c@.take(i + 1));
                        assert(c@.take(i + 1) =~= c@.take(i as int).push(c@[i as int]));
                        lemma_decimal_len(m);
                        assert(decimal(m).len() >= 2);
                        lemma_decimal_len(m / 10);
                        assert(decimal(m).drop_last() == decimal(m / 10));
                        assert(decimal(m / 10) =~= decimal(v as nat));
                        lemma_decimal_injective(m / 10, v as nat);
                        lemma_digit_injective(m % 10, d as nat);
                        assert(m == (m / 10) * 10 + m % 10);
                        assert(v * 10 + d > u64::MAX) by (nonlinear_arith)
                            requires
                                v > (u64::MAX - d) / 10,
                                d < 10,
                        ;
                    }
                }
            }
            return None;
        }
        proof {
            if i > 0 {
                assert(v * 10 + d <= u64::MAX) by (nonlinear_arith)
                    requires
                        v <= (u64::MAX - d) / 10,
                        d < 10,
                ;
            }
        }
        let nv = v * 10 + d;
        proof {
            assert(c@.take(i + 1) =~= c@.take(i as int).push(c@[i as int]));
            if i > 0 {
                lemma_decimal_len(v as nat);
                if v == 0 {
                    assert(c@.take(i as int)[0] == '0');
                }
                assert(v > 0);
                assert(nv >= 10);
                assert(nv / 10 == v);
                assert(nv % 10 == d);
            } else {
                assert(nv == d);
            }
        }
        v = nv;
        i = i + 1;
    }
    assert(c@.take(c@.len() as int) =~= c@);
    proof {
        assert(decimal(v as nat) == text@);
        let n = choose|n: u64| decimal(n as nat) == text@;
        lemma_decimal_injective(n as nat, v as nat);
    }
    Some(v)
}

proof fn lemma_leading_digit(n: nat)
    ensures
        decimal(n).len() > 1 ==> decimal(n)[0] != '0',
    decreases n,
{
    if n >= 10 {
        lemma_leading_digit(n / 10);
        lemma_decimal_len(n / 10);
        if n / 10 < 10 {
            assert(n / 10 != 0);
        }
    }
}

proof fn lemma_all_digits(n: nat)
    ensures
        forall|k: int| 0 <= k < decimal(n).len() ==> '0' <= #[trigger] decimal(n)[k] <= '9',
    decreases n,
{
    if n >= 10 {
        lemma_all_digits(n / 10);
        assert forall|k: int| 0 <= k < decimal(n).len() implies '0' <= #[trigger] decimal(n)[k] <= '9' by {
            if k < decimal(n).len() - 1 {
                assert(decimal(n)[k] == decimal(n / 10)[k]);
            }
        }
    }
}

/// The number whose decimal text is the first `k` characters of that of `n`.
pub open spec fn decimal_prefix_value(n: nat, k: nat) -> nat
    decreases n,
{
    if k >= decimal(n).len() || n < 10 {
        n
    } else {
        decimal_prefix_value(n / 10, k)
    }
}

proof fn lemma_decimal_prefix(n: nat, k: nat)
    requires
        1 <= k <= decimal(n).len(),
    ensures
        decimal(decimal_prefix_value(n, k)) == decimal(n).take(k as int),
        decimal_prefix_value(n, k) <= n,
    decreases decimal(n).len() - k,
{
    lemma_decimal_len(n);
    if k >= decimal(n).len() {
        assert(decimal(n).take(k as int) =~= decimal(n));
    } else {
        assert(n >= 10);
        lemma_decimal_len(n / 10);
        assert(decimal(n).len() == decimal(n / 10).len() + 1);
        lemma_decimal_prefix(n / 10, k);
        assert(decimal(n / 10).take(k as int) =~= decimal(n).take(k as int));
    }
}

impl BedrockProvider {
    pub fn new(model_id: String, region: String) -> (r: Self)
        ensures
            r.model() == model_id@,
            r.aws_region() == region@,
    {
        BedrockProvider { model_id, region }
    }

    pub closed spec fn model(&self) -> Seq<char> {
        self.model_id@
    }

    pub closed spec fn aws_region(&self) -> Seq<char> {
        self.region@
    }

    /// The default model.
    pub fn model_id(&self) -> (r: &str)
        ensures
            r@ == self.model(),
    {
        self.model_id.as_str()
    }

    /// The AWS region.
    pub fn region(&self) -> (r: &str)
        ensures
            r@ == self.aws_region(),
    {
        self.region.as_str()
    }

    /// The model a call uses: the requested one, or the default when none is named.
    pub fn effective_model(&self, model_id: &str) -> (r: String)
        ensures
            r@ == if model_id@.len() == 0 {
                self.model()
            } else {
                model_id@
            },
    {
        if model_id.unicode_len() == 0 {
            self.model_id.clone()
        } else {
            model_id.to_owned()
        }
    }

    /// Arguments of the `aws` command for a Converse call, given the model,
    /// the JSON of the conversation and (if any) the JSON of the system prompt.
    pub fn converse_args(&self, model: &str, messages_json: &str, system_json: Option<&str>) -> (r: Vec<String>)
        ensures
            r@.len() == if system_json is Some {
                12nat
            } else {
                10nat
            },
            r@[0]@ == "bedrock-runtime"@,
            r@[1]@ == "converse"@,
            r@[2]@ == "--model-id"@,
            r@[3]@ == model@,
            r@[4]@ == "--messages"@,
            r@[5]@ == messages_json@,
            r@[6]@ == "--region"@,
            r@[7]@ == self.aws_region(),
            r@[8]@ == "--output"@,
            r@[9]@ == "json"@,
            system_json is Some ==> r@[10]@ == "--system"@ && r@[11]@ == system_json.unwrap()@,
    {
        let mut r: Vec<String> = Vec::new();
        r.push("bedrock-runtime".to_owned());
        r.push("converse".to_owned());
        r.push("--model-id".to_owned());
        r.push(model.to_owned());
        r.push("--messages".to_owned());
        r.push(messages_json.to_owned());
        r.push("--region".to_owned());
        r.push(self.region.clone());
        r.push("--output".to_owned());
        r.push("json".to_owned());
        match system_json {
            Some(s) => {
                r.push("--system".to_owned());
                r.push(s.to_owned());
            },
            None => {},
        }
        r
    }
}

/// The `role` string of a message, if it has one.
#[verifier::opaque]
pub open spec fn role_of(m: JsonValue) -> Option<Seq<char>> {
    match field_of(m, "role"@) {
        Some(JsonValue::Str(r)) => Some(r@),
        _ => None,
    }
}

/// The `content` string of a message, if it has one.
#[verifier::opaque]
pub open spec fn content_of(m: JsonValue) -> Option<Seq<char>> {
    match field_of(m, "content"@) {
        Some(JsonValue::Str(c)) => Some(c@),
        _ => None,
    }
}

/// Whether a message is a system message.
pub open spec fn is_system(m: JsonValue) -> bool {
    role_of(m) == Some("system"@)
}

/// A conversation message as Converse takes it: its role (`user` when it
/// has none) and its text (empty when it has none).
pub open spec fn turn_of(m: JsonValue) -> (Seq<char>, Seq<char>) {
    (
        match role_of(m) {
            Some(r) => r,
            None => "user"@,
        },
        match content_of(m) {
            Some(c) => c,
            None => Seq::empty(),
        },
    )
}

/// The turns of the non-system messages of the first `k` messages, in order.
pub open spec fn turns(messages: Seq<JsonValue>, k: int) -> Seq<(Seq<char>, Seq<char>)>
    decreases k,
{
    if k <= 0 {
        Seq::empty()
    } else if is_system(messages[k - 1]) {
        turns(messages, k - 1)
    } else {
        turns(messages, k - 1).push(turn_of(messages[k - 1]))
    }
}

/// The system prompt: the content string of the first system message
/// (nothing when it has none, or when there is no system message).
pub open spec fn system_prompt_of(messages: Seq<JsonValue>) -> Option<Seq<char>> {
    if exists|i: int| 0 <= i < messages.len() && is_system(#[trigger] messages[i]) {
        content_of(messages[choose|i: int| 0 <= i < messages.len() && is_system(#[trigger] messages[i])
            && forall|j: int| 0 <= j < i ==> !is_system(#[trigger] messages[j])])
    } else {
        None
    }
}

fn role_field<'a>(m: &'a JsonValue, key: &[char]) -> (r: Option<&'a String>)
    requires
        key@ == "role"@,
    ensures
        match r {
            Some(s) => role_of(*m) == Some(s@),
            None => role_of(*m) is None,
        },
{
    reveal(role_of);
    match get_field(m, key) {
        Some(JsonValue::Str(s)) => Some(s),
        _ => None,
    }
}

fn content_field<'a>(m: &'a JsonValue, key: &[char]) -> (r: Option<&'a String>)
    requires
        key@ == "content"@,
    ensures
        match r {
            Some(s) => content_of(*m) == Some(s@),
            None => content_of(*m) is None,
        },
{
    reveal(content_of);
    match get_field(m, key) {
        Some(JsonValue::Str(s)) => Some(s),
        _ => None,
    }
}

proof fn lemma_system_prompt(messages: Seq<JsonValue>, w: int)
    requires
        0 <= w < messages.len(),
        is_system(messages[w]),
        forall|j: int| 0 <= j < w ==> !is_system(#[trigger] messages[j]),
    ensures
        system_prompt_of(messages) == content_of(messages[w]),
{
    let c = choose|i: int| 0 <= i < messages.len() && is_system(#[trigger] messages[i])
        && forall|j: int| 0 <= j < i ==> !is_system(#[trigger] messages[j]);
    assert(0 <= w < messages.len() && is_system(messages[w]) && forall|j: int| 0 <= j < w ==> !is_system(#[trigger] messages[j]));
    if c < w {
        assert(!is_system(messages[c]));
    } else if c > w {
        assert(!is_system(messages[w]));
    }
}

proof fn lemma_no_system_prompt(messages: Seq<JsonValue>)
    requires
        forall|j: int| 0 <= j < messages.len() ==> !is_system(#[trigger] messages[j]),
    ensures
        system_prompt_of(messages) is None,
{
}

/// Splits a message list into the conversation turns (every non-system
/// message, in order) and the system prompt.
pub fn split_messages(messages: &Vec<JsonValue>) -> (r: (Vec<(String, String)>, Option<String>))
    ensures
        r.0@.map_values(|t: (String, String)| (t.0@, t.1@)) == turns(messages@, messages@.len() as int),
        opt_str_view(r.1) == system_prompt_of(messages@),
{
    let k_role = chars_of("role");
    let k_content = chars_of("content");
    let sys = chars_of("system");
    let mut conv: Vec<(String, String)> = Vec::new();
    let mut system: Option<String> = None;
    let mut found = false;
    let ghost mut w: int = 0;
    let mut i: usize = 0;
    while i < messages.len()
        invariant
            i <= messages@.len(),
            k_role@ == "role"@,
            k_content@ == "content"@,
            sys@ == "system"@,
            conv@.map_values(|t: (String, String)| (t.0@, t.1@)) == turns(messages@, i as int),
            found ==> 0 <= w < i && is_system(messages@[w]) && opt_str_view(system) == content_of(messages@[w]),
            found ==> forall|j: int| 0 <= j < w ==> !is_system(#[trigger] messages@[j]),
            !found ==> forall|j: int| 0 <= j < i ==> !is_system(#[trigger] messages@[j]),
            !found ==> system is None,
        decreases messages@.len() - i,
    {
        let m = &messages[i];
        let role = role_field(m, k_role.as_slice());
        let content = content_field(m, k_content.as_slice());
        let is_sys = match role {
            Some(r) => {
                let rc = chars_of(r.as_str());
                chars_eq(rc.as_slice(), sys.as_slice())
            },
            None => false,
        };
        assert(is_sys == is_system(messages@[i as int]));
        proof {
            if is_sys {
                assert(turns(messages@, i + 1) == turns(messages@, i as int));
            } else {
                assert(turns(messages@, i + 1) == turns(messages@, i as int).push(turn_of(messages@[i as int])));
            }
        }
        if is_sys {
            if !found {
                system = match content {
                    Some(c) => Some(c.clone()),
                    None => None,
                };
                proof {
                    w = i as int;
                }
                found = true;
            }
        } else {
            let r = match role {
                Some(r) => r.clone(),
                None => "user".to_owned(),
            };
            let c = match content {
                Some(c) => c.clone(),
                None => String::new(),
            };
            let ghost before = conv@;
            conv.push((r, c));
            proof {
                reveal_strlit("");
                assert(conv@.map_values(|t: (String, String)| (t.0@, t.1@)) =~= before.map_values(
                    |t: (String, String)| (t.0@, t.1@),
                ).push(turn_of(messages@[i as int])));
            }
        }
        i = i + 1;
    }
    proof {
        if found {
            lemma_system_prompt(messages@, w);
        } else {
            lemma_no_system_prompt(messages@);
        }
    }
    (conv, system)
}

/// A lowercase hexadecimal digit.
pub open spec fn hex_digit(n: nat) -> char {
    if n < 10 {
        digit_char(n)
    } else {
        "abcdef"@[n - 10]
    }
}

/// How `serde_json` writes one character inside a string literal: quote
/// and backslash escaped with a backslash, the controls with a short
/// escape (`\b`, `\t`, `\n`, `\f`, `\r`) where JSON has one and as
/// `\u00XX` (lowercase hex) otherwise, every other character as itself.
pub open spec fn json_escape(c: char) -> Seq<char> {
    let u = c as u32;
    if c == '"' {
        seq!['\\', '"']
    } else if c == '\\' {
        seq!['\\', '\\']
    } else if u == 0x08 {
        seq!['\\', 'b']
    } else if u == 0x09 {
        seq!['\\', 't']
    } else if u == 0x0A {
        seq!['\\', 'n']
    } else if u == 0x0C {
        seq!['\\', 'f']
    } else if u == 0x0D {
        seq!['\\', 'r']
    } else if u < 0x20 {
        seq!['\\', 'u', '0', '0', hex_digit((u / 16) as nat), hex_digit((u % 16) as nat)]
    } else {
        seq![c]
    }
}

/// The escaped characters of a text.
pub open spec fn json_escaped(s: Seq<char>) -> Seq<char>
    decreases s.len(),
{
    if s.len() == 0 {
        Seq::empty()
    } else {
        json_escaped(s.drop_last()) + json_escape(s.last())
    }
}

/// The JSON string literal of a text, as `serde_json` writes it.
pub open spec fn json_quoted(s: Seq<char>) -> Seq<char> {
    seq!['"'] + json_escaped(s) + seq!['"']
}

/// `serde_json::to_string` of a string: its JSON string literal (quoted
/// and escaped). Serializing a string into memory does not fail.
#[verifier::external_body]
fn json_quote(s: &str) -> (r: String)
    ensures
        r@ == json_quoted(s@),
{
    serde_json::to_string(s).unwrap_or_default()
}

/// The compact JSON of one Converse turn, keys in sorted order:
/// `{"content":[{"text":T}],"role":R}`.
pub open spec fn turn_json(t: (Seq<char>, Seq<char>)) -> Seq<char> {
    "{\"content\":[{\"text\":"@ + json_quoted(t.1) + "}],\"role\":"@ + json_quoted(t.0) + "}"@
}

/// The compact JSON array of the first `k` turns' encodings.
pub open spec fn turns_json(ts: Seq<(Seq<char>, Seq<char>)>, k: int) -> Seq<char>
    decreases k,
{
    if k <= 0 {
        Seq::empty()
    } else if k == 1 {
        turn_json(ts[0])
    } else {
        turns_json(ts, k - 1) + ","@ + turn_json(ts[k - 1])
    }
}

/// The `--messages` argument: the turns as a JSON array.
pub fn messages_json(ts: &Vec<(String, String)>) -> (r: String)
    ensures
        r@ == "["@ + turns_json(ts@.map_values(|t: (String, String)| (t.0@, t.1@)), ts@.len() as int) + "]"@,
{
    let ghost tv = ts@.map_values(|t: (String, String)| (t.0@, t.1@));
    let mut out: Vec<char> = Vec::new();
    let mut i: usize = 0;
    while i < ts.len()
        invariant
            i <= ts@.len(),
            tv == ts@.map_values(|t: (String, String)| (t.0@, t.1@)),
            out@ == turns_json(tv, i as int),
        decreases ts@.len() - i,
    {
        if i > 0 {
            push_str(&mut out, ",");
        }
        push_str(&mut out, "{\"content\":[{\"text\":");
        let c = json_quote(ts[i].1.as_str());
        push_str(&mut out, c.as_str());
        push_str(&mut out, "}],\"role\":");
        let r = json_quote(ts[i].0.as_str());
        push_str(&mut out, r.as_str());
        push_str(&mut out, "}");
        proof {
            if i == 0 {
                assert(out@ =~= turn_json(tv[0]));
            } else {
                assert(out@ =~= turns_json(tv, i as int) + ","@ + turn_json(tv[i as int]));
            }
        }
        i = i + 1;
    }
    let mut r: Vec<char> = Vec::new();
    push_str(&mut r, "[");
    push_all(&mut r, out.as_slice());
    push_str(&mut r, "]");
    string_from_chars(r.as_slice())
}

/// The `--system` argument: `[{"text":S}]`.
pub fn system_json(system: &str) -> (r: String)
    ensures
        r@ == "[{\"text\":"@ + json_quoted(system@) + "}]"@,
{
    let mut v: Vec<char> = Vec::new();
    push_str(&mut v, "[{\"text\":");
    let q = json_quote(system);
    push_str(&mut v, q.as_str());
    push_str(&mut v, "}]");
    string_from_chars(v.as_slice())
}

/// Class of a failed Converse call, from its error output: `None` for a
/// rate limit, otherwise the provider error message.
pub fn classify_failure(stderr: &str) -> (r: BedrockFailure)
    ensures
        match r {
            BedrockFailure::RateLimited => failure_class(stderr@) is None,
            BedrockFailure::ProviderError(m) => failure_class(stderr@) == Some(m@),
        },
{
    let s = chars_of(stderr);
    let t1 = chars_of("ThrottlingException");
    let t2 = chars_of("TooManyRequests");
    if contains_chars(s.as_slice(), t1.as_slice()) || contains_chars(s.as_slice(), t2.as_slice()) {
        return BedrockFailure::RateLimited;
    }
    let mut out: Vec<char> = Vec::new();
    push_str(&mut out, "Bedrock converse failed: ");
    push_str(&mut out, stderr);
    BedrockFailure::ProviderError(string_from_chars(out.as_slice()))
}

/// The text of a Converse reply.
pub fn extract_text(resp: &JsonValue) -> (r: String)
    ensures
        r@ == reply_text(*resp),
{
    let k_out = chars_of("output");
    let k_msg = chars_of("message");
    let k_content = chars_of("content");
    let k_text = chars_of("text");
    let o = match get_field(resp, k_out.as_slice()) {
        Some(o) => o,
        None => return String::new(),
    };
    let m = match get_field(o, k_msg.as_slice()) {
        Some(m) => m,
        None => return String::new(),
    };
    match get_field(m, k_content.as_slice()) {
        Some(JsonValue::Array { items, .. }) => {
            let mut out: Vec<char> = Vec::new();
            let mut i: usize = 0;
            while i < items.len()
                invariant
                    i <= items@.len(),
                    k_text@ == "text"@,
                    out@ == concat_texts(items@, i as int),
                decreases items@.len() - i,
            {
                match get_field(&items[i], k_text.as_slice()) {
                    Some(JsonValue::Str(t)) => {
                        push_str(&mut out, t.as_str());
                    },
                    _ => {
                        assert(out@ =~= out@ + Seq::<char>::empty());
                    },
                }
                i = i + 1;
            }
            string_from_chars(out.as_slice())
        },
        _ => String::new(),
    }
}

/// A usage counter of a Converse reply (`usage.inputTokens` or
/// `usage.outputTokens`), narrowed to 32 bits.
pub fn usage_tokens(resp: &JsonValue, name: &str) -> (r: Option<u32>)
    ensures
        r == usage_count(*resp, name@),
{
    let k_usage = chars_of("usage");
    let k_name = chars_of(name);
    let u = match get_field(resp, k_usage.as_slice()) {
        Some(u) => u,
        None => return None,
    };
    match get_field(u, k_name.as_slice()) {
        Some(JsonValue::Number(t)) => match parse_number_u64(t.as_str()) {
            Some(n) => Some(n as u32),
            None => None,
        },
        _ => None,
    }
}

} // verus!
