//! The built-in tools this server lists in `tools/list`: their names, descriptions and
//! argument schemas as plain values, and the JSON the listing is written as.

use vstd::prelude::*;

use super::mcp::{parse_call_spec, CallArgsView};
use super::wire::{arr, arr_text, json_quoted, member, member_quoted, member_text, obj, obj_text, quote};
use super::CommandView;
use crate::fmt::{decimal, push_decimal};
use crate::text::{chars_of, string_of, views};

verus! {

/// A number in a schema: `whole` and one decimal digit `tenths` (`0.1` is `{ 0, 1 }`).
#[derive(Clone, Copy, Debug, PartialEq, Eq, Structural)]
pub struct Number {
    pub whole: u64,
    pub tenths: u64,
}

/// The JSON type of an argument.
#[derive(Clone, Copy, Debug, PartialEq, Eq, Structural)]
pub enum ParamKind {
    Text,
    Integer,
    Fraction,
    Flag,
}

/// One argument of a tool.
#[derive(Clone, Debug, PartialEq)]
pub struct ToolParam {
    pub name: String,
    pub kind: ParamKind,
    pub minimum: Option<Number>,
    pub maximum: Option<Number>,
    /// The default of a numeric argument.
    pub default: Option<Number>,
    /// The default of a boolean argument.
    pub default_flag: Option<bool>,
    pub description: Option<String>,
}

/// One tool: name, description, arguments, and the argument it cannot do without.
#[derive(Clone, Debug, PartialEq)]
pub struct ToolSchema {
    pub name: String,
    pub description: String,
    pub params: Vec<ToolParam>,
    pub required: Option<String>,
}

pub struct ToolParamView {
    pub name: Seq<char>,
    pub kind: ParamKind,
    pub minimum: Option<Number>,
    pub maximum: Option<Number>,
    pub default: Option<Number>,
    pub default_flag: Option<bool>,
    pub description: Option<Seq<char>>,
}

pub struct ToolSchemaView {
    pub name: Seq<char>,
    pub description: Seq<char>,
    pub params: Seq<ToolParamView>,
    pub required: Option<Seq<char>>,
}

pub open spec fn text_opt(o: Option<String>) -> Option<Seq<char>> {
    match o {
        Some(s) => Some(s@),
        None => None,
    }
}

impl View for ToolParam {
    type V = ToolParamView;

    open spec fn view(&self) -> ToolParamView {
        ToolParamView {
            name: self.name@,
            kind: self.kind,
            minimum: self.minimum,
            maximum: self.maximum,
            default: self.default,
            default_flag: self.default_flag,
            description: text_opt(self.description),
        }
    }
}

pub open spec fn param_views(ps: Seq<ToolParam>) -> Seq<ToolParamView> {
    ps.map_values(|p: ToolParam| p@)
}

impl View for ToolSchema {
    type V = ToolSchemaView;

    open spec fn view(&self) -> ToolSchemaView {
        ToolSchemaView {
            name: self.name@,
            description: self.description@,
            params: param_views(self.params@),
            required: text_opt(self.required),
        }
    }
}

pub open spec fn schema_views(ts: Seq<ToolSchema>) -> Seq<ToolSchemaView> {
    ts.map_values(|t: ToolSchema| t@)
}

// ------------------------------------------------------------------------------- the table

pub open spec fn int_param(name: Seq<char>, lo: u64, hi: Option<u64>, default: u64, description: Option<Seq<char>>) -> ToolParamView {
    ToolParamView {
        name,
        kind: ParamKind::Integer,
        minimum: Some(Number { whole: lo, tenths: 0 }),
        maximum: match hi {
            Some(h) => Some(Number { whole: h, tenths: 0 }),
            None => None,
        },
        default: Some(Number { whole: default, tenths: 0 }),
        default_flag: None,
        description,
    }
}

pub open spec fn text_param(name: Seq<char>, description: Option<Seq<char>>) -> ToolParamView {
    ToolParamView {
        name,
        kind: ParamKind::Text,
        minimum: None,
        maximum: None,
        default: None,
        default_flag: None,
        description,
    }
}

/// The built-in tools, in the order `tools/list` gives them.
pub open spec fn builtin_tools_spec() -> Seq<ToolSchemaView> {
    seq![
        ToolSchemaView {
            name: "observe"@,
            description: "Describe the app: a state summary plus every interactive widget on screen as `[role] LABEL (state) @x,y`. Call it first and after each action. Labels are exact (upper-case) strings; pass them verbatim to `click` / `type`."@,
            params: seq![],
            required: None,
        },
        ToolSchemaView {
            name: "screenshot"@,
            description: "Capture the window as PNG (the app draws it itself; no screen-recording permission needed). Optionally save it to `path`."@,
            params: seq![
                text_param("path"@, Some("Also write the PNG here"@)),
                ToolParamView {
                    name: "scale"@,
                    kind: ParamKind::Fraction,
                    minimum: Some(Number { whole: 0, tenths: 1 }),
                    maximum: Some(Number { whole: 1, tenths: 0 }),
                    default: Some(Number { whole: 1, tenths: 0 }),
                    default_flag: None,
                    description: Some("Downscale factor"@),
                },
            ],
            required: None,
        },
        ToolSchemaView {
            name: "click"@,
            description: "Move the on-screen agent cursor to the widget with this label and click it. Returns the observation after the click."@,
            params: seq![
                text_param("label"@, Some("Widget label from `observe`"@)),
                int_param("nth"@, 1, None, 1, Some("When several widgets share the label"@)),
            ],
            required: Some("label"@),
        },
        ToolSchemaView {
            name: "type"@,
            description: "Type text. With `label`, the input with that label is focused first; otherwise the currently focused input receives it. `submit` presses Enter afterwards."@,
            params: seq![
                text_param("label"@, Some("Input label from `observe`"@)),
                ToolParamView {
                    name: "submit"@,
                    kind: ParamKind::Flag,
                    minimum: None,
                    maximum: None,
                    default: None,
                    default_flag: Some(false),
                    description: None,
                },
                text_param("text"@, None),
            ],
            required: Some("text"@),
        },
        ToolSchemaView {
            name: "key"@,
            description: "Press a key or shortcut: `enter`, `escape`, `down`, `cmd+3`, `cmd+f`, `cmd+backspace`, `shift+tab` …"@,
            params: seq![text_param("key"@, None), int_param("repeat"@, 1, Some(50), 1, None)],
            required: Some("key"@),
        },
        ToolSchemaView {
            name: "wait"@,
            description: "Let the app run (a brew command, a directory load) and return the observation afterwards."@,
            params: seq![int_param("ms"@, 1, Some(10_000), 500, None)],
            required: None,
        },
    ]
}

fn owned(s: &str) -> (r: String)
    ensures
        r@ == s@,
{
    string_of(chars_of(s).as_slice())
}

fn opt_owned(s: Option<&str>) -> (r: Option<String>)
    ensures
        text_opt(r) == match s {
            Some(x) => Some(x@),
            None => None::<Seq<char>>,
        },
{
    match s {
        Some(x) => Some(owned(x)),
        None => None,
    }
}

fn int_param_exec(name: &str, lo: u64, hi: Option<u64>, default: u64, description: Option<&str>) -> (r: ToolParam)
    ensures
        r@ == int_param(name@, lo, hi, default, match description {
            Some(x) => Some(x@),
            None => None::<Seq<char>>,
        }),
{
    ToolParam {
        name: owned(name),
        kind: ParamKind::Integer,
        minimum: Some(Number { whole: lo, tenths: 0 }),
        maximum: match hi {
            Some(h) => Some(Number { whole: h, tenths: 0 }),
            None => None,
        },
        default: Some(Number { whole: default, tenths: 0 }),
        default_flag: None,
        description: opt_owned(description),
    }
}

fn text_param_exec(name: &str, description: Option<&str>) -> (r: ToolParam)
    ensures
        r@ == text_param(name@, match description {
            Some(x) => Some(x@),
            None => None::<Seq<char>>,
        }),
{
    ToolParam {
        name: owned(name),
        kind: ParamKind::Text,
        minimum: None,
        maximum: None,
        default: None,
        default_flag: None,
        description: opt_owned(description),
    }
}

/// The built-in tools (see [`builtin_tools_spec`]).
pub fn builtin_tools() -> (r: Vec<ToolSchema>)
    ensures
        schema_views(r@) == builtin_tools_spec(),
{
    let spec_tools = Ghost(builtin_tools_spec());
    let mut r: Vec<ToolSchema> = Vec::new();

    r.push(ToolSchema {
        name: owned("observe"),
        description: owned("Describe the app: a state summary plus every interactive widget on screen as `[role] LABEL (state) @x,y`. Call it first and after each action. Labels are exact (upper-case) strings; pass them verbatim to `click` / `type`."),
        params: Vec::new(),
        required: None,
    });
    proof {
        assert(param_views(r@[0].params@) =~= spec_tools@[0].params);
        assert(r@[0]@ == spec_tools@[0]);
    }

    let mut ps: Vec<ToolParam> = Vec::new();
    ps.push(text_param_exec("path", Some("Also write the PNG here")));
    ps.push(ToolParam {
        name: owned("scale"),
        kind: ParamKind::Fraction,
        minimum: Some(Number { whole: 0, tenths: 1 }),
        maximum: Some(Number { whole: 1, tenths: 0 }),
        default: Some(Number { whole: 1, tenths: 0 }),
        default_flag: None,
        description: Some(owned("Downscale factor")),
    });
    r.push(ToolSchema {
        name: owned("screenshot"),
        description: owned("Capture the window as PNG (the app draws it itself; no screen-recording permission needed). Optionally save it to `path`."),
        params: ps,
        required: None,
    });
    proof {
        assert(param_views(r@[1].params@) =~= spec_tools@[1].params);
        assert(r@[1]@ == spec_tools@[1]);
    }

    let mut ps: Vec<ToolParam> = Vec::new();
    ps.push(text_param_exec("label", Some("Widget label from `observe`")));
    ps.push(int_param_exec("nth", 1, None, 1, Some("When several widgets share the label")));
    r.push(ToolSchema {
        name: owned("click"),
        description: owned("Move the on-screen agent cursor to the widget with this label and click it. Returns the observation after the click."),
        params: ps,
        required: Some(owned("label")),
    });
    proof {
        assert(param_views(r@[2].params@) =~= spec_tools@[2].params);
        assert(r@[2]@ == spec_tools@[2]);
    }

    let mut ps: Vec<ToolParam> = Vec::new();
    ps.push(text_param_exec("label", Some("Input label from `observe`")));
    ps.push(ToolParam {
        name: owned("submit"),
        kind: ParamKind::Flag,
        minimum: None,
        maximum: None,
        default: None,
        default_flag: Some(false),
        description: None,
    });
    ps.push(text_param_exec("text", None));
    r.push(ToolSchema {
        name: owned("type"),
        description: owned("Type text. With `label`, the input with that label is focused first; otherwise the currently focused input receives it. `submit` presses Enter afterwards."),
        params: ps,
        required: Some(owned("text")),
    });
    proof {
        assert(param_views(r@[3].params@) =~= spec_tools@[3].params);
        assert(r@[3]@ == spec_tools@[3]);
    }

    let mut ps: Vec<ToolParam> = Vec::new();
    ps.push(text_param_exec("key", None));
    ps.push(int_param_exec("repeat", 1, Some(50), 1, None));
    r.push(ToolSchema {
        name: owned("key"),
        description: owned("Press a key or shortcut: `enter`, `escape`, `down`, `cmd+3`, `cmd+f`, `cmd+backspace`, `shift+tab` …"),
        params: ps,
        required: Some(owned("key")),
    });
    proof {
        assert(param_views(r@[4].params@) =~= spec_tools@[4].params);
        assert(r@[4]@ == spec_tools@[4]);
    }

    let mut ps: Vec<ToolParam> = Vec::new();
    ps.push(int_param_exec("ms", 1, Some(10_000), 500, None));
    r.push(ToolSchema {
        name: owned("wait"),
        description: owned("Let the app run (a brew command, a directory load) and return the observation afterwards."),
        params: ps,
        required: None,
    });
    proof {
        assert(param_views(r@[5].params@) =~= spec_tools@[5].params);
        assert(r@[5]@ == spec_tools@[5]);
        assert(schema_views(r@) =~= spec_tools@);
    }
    r
}

// ------------------------------------------------------------------------------- as JSON

/// The JSON Schema type name of an argument kind.
pub open spec fn kind_name(k: ParamKind) -> Seq<char> {
    match k {
        ParamKind::Text => "string"@,
        ParamKind::Integer => "integer"@,
        ParamKind::Fraction => "number"@,
        ParamKind::Flag => "boolean"@,
    }
}

/// A schema number as JSON: `whole`, or `whole.tenths` when there is a tenth.
pub open spec fn number_text(n: Number) -> Seq<char> {
    if n.tenths == 0 {
        decimal(n.whole as nat)
    } else {
        decimal(n.whole as nat) + seq!['.'] + decimal(n.tenths as nat)
    }
}

pub open spec fn number_member(key: Seq<char>, o: Option<Number>) -> Seq<Seq<char>> {
    match o {
        Some(n) => seq![member(key, number_text(n))],
        None => seq![],
    }
}

pub open spec fn flag_member(key: Seq<char>, o: Option<bool>) -> Seq<Seq<char>> {
    match o {
        Some(b) => seq![member(key, if b { "true"@ } else { "false"@ })],
        None => seq![],
    }
}

pub open spec fn text_member(key: Seq<char>, o: Option<Seq<char>>) -> Seq<Seq<char>> {
    match o {
        Some(s) => seq![member(key, json_quoted(s))],
        None => seq![],
    }
}

/// The members describing one argument: its type, bounds, default and description.
/// Members in key order, as `serde_json` writes an object; a numeric default takes the place
/// of a boolean one.
pub open spec fn param_fields(p: ToolParamView) -> Seq<Seq<char>> {
    number_member("default"@, p.default) + (if p.default is None {
        flag_member("default"@, p.default_flag)
    } else {
        seq![]
    }) + text_member("description"@, p.description) + number_member("maximum"@, p.maximum)
        + number_member("minimum"@, p.minimum) + seq![member("type"@, json_quoted(kind_name(p.kind)))]
}

/// `"name":{…}` for one argument.
pub open spec fn param_json(p: ToolParamView) -> Seq<char> {
    member(p.name, obj(param_fields(p)))
}

/// The `inputSchema` of a tool: an object with these properties, no others.
pub open spec fn schema_json(t: ToolSchemaView) -> Seq<char> {
    obj(
        seq![
            member("additionalProperties"@, "false"@),
            member("properties"@, obj(t.params.map_values(|p: ToolParamView| param_json(p)))),
        ] + match t.required {
            Some(r) => seq![member("required"@, arr(seq![json_quoted(r)]))],
            None => seq![],
        } + seq![member("type"@, json_quoted("object"@))],
    )
}

/// One tool as `tools/list` writes it.
pub open spec fn tool_json(t: ToolSchemaView) -> Seq<char> {
    obj(
        seq![
            member("description"@, json_quoted(t.description)),
            member("inputSchema"@, schema_json(t)),
            member("name"@, json_quoted(t.name)),
        ],
    )
}

/// The tool list as a JSON array.
pub open spec fn tools_json(ts: Seq<ToolSchemaView>) -> Seq<char> {
    arr(ts.map_values(|t: ToolSchemaView| tool_json(t)))
}

fn number_chars(n: Number) -> (r: Vec<char>)
    ensures
        r@ == number_text(n),
{
    let mut r: Vec<char> = Vec::new();
    push_decimal(&mut r, n.whole);
    if n.tenths != 0 {
        r.push('.');
        push_decimal(&mut r, n.tenths);
        assert(r@ =~= decimal(n.whole as nat) + seq!['.'] + decimal(n.tenths as nat));
    } else {
        assert(r@ =~= decimal(n.whole as nat));
    }
    r
}

fn kind_chars(k: ParamKind) -> (r: Vec<char>)
    ensures
        r@ == kind_name(k),
{
    match k {
        ParamKind::Text => chars_of("string"),
        ParamKind::Integer => chars_of("integer"),
        ParamKind::Fraction => chars_of("number"),
        ParamKind::Flag => chars_of("boolean"),
    }
}

fn param_text(p: &ToolParam) -> (r: Vec<char>)
    ensures
        r@ == param_json(p@),
{
    let pv = Ghost(p@);
    let mut fs: Vec<Vec<char>> = Vec::new();
    match p.default {
        Some(n) => {
            let t = number_chars(n);
            fs.push(member_text("default", t.as_slice()));
        },
        None => match p.default_flag {
            Some(b) => {
                let t = if b { chars_of("true") } else { chars_of("false") };
                fs.push(member_text("default", t.as_slice()));
            },
            None => {},
        },
    }
    let ghost e1 = number_member("default"@, p.default) + (if p.default is None {
        flag_member("default"@, p.default_flag)
    } else {
        seq![]
    });
    assert(views(fs@) =~= e1);
    match &p.description {
        Some(d) => {
            let dc = chars_of(d.as_str());
            fs.push(member_quoted("description", dc.as_slice()));
        },
        None => {},
    }
    assert(views(fs@) =~= e1 + text_member("description"@, pv@.description));
    let ghost e2 = views(fs@);
    match p.maximum {
        Some(n) => {
            let t = number_chars(n);
            fs.push(member_text("maximum", t.as_slice()));
        },
        None => {},
    }
    assert(views(fs@) =~= e2 + number_member("maximum"@, p.maximum));
    let ghost e3 = views(fs@);
    match p.minimum {
        Some(n) => {
            let t = number_chars(n);
            fs.push(member_text("minimum", t.as_slice()));
        },
        None => {},
    }
    assert(views(fs@) =~= e3 + number_member("minimum"@, p.minimum));
    let ghost e4 = views(fs@);
    let kc = kind_chars(p.kind);
    fs.push(member_quoted("type", kc.as_slice()));
    assert(views(fs@) =~= e4 + seq![member("type"@, json_quoted(kind_name(p.kind)))]);
    assert(views(fs@) =~= param_fields(pv@));
    let body = obj_text(fs.as_slice());
    let name = chars_of(p.name.as_str());
    let mut r: Vec<char> = Vec::new();
    r.push('"');
    crate::text::push_all(&mut r, name.as_slice());
    r.push('"');
    r.push(':');
    crate::text::push_all(&mut r, body.as_slice());
    assert(r@ =~= member(p.name@, obj(param_fields(pv@))));
    r
}

fn tool_text(t: &ToolSchema) -> (r: Vec<char>)
    ensures
        r@ == tool_json(t@),
{
    let tv = Ghost(t@);
    let mut props: Vec<Vec<char>> = Vec::new();
    let mut i: usize = 0;
    while i < t.params.len()
        invariant
            i <= t.params.len(),
            tv@ == t@,
            views(props@) == tv@.params.take(i as int).map_values(|p: ToolParamView| param_json(p)),
        decreases t.params.len() - i,
    {
        let pt = param_text(&t.params[i]);
        let ghost before = views(props@);
        let ghost f = |p: ToolParamView| param_json(p);
        props.push(pt);
        proof {
            assert(tv@.params[i as int] == t.params@[i as int]@);
            assert(views(props@) =~= before.push(param_json(tv@.params[i as int])));
            assert(tv@.params.take(i + 1).map_values(f) =~= tv@.params.take(i as int).map_values(f).push(
                f(tv@.params[i as int]),
            ));
        }
        i = i + 1;
    }
    assert(tv@.params.take(i as int) =~= tv@.params);
    let properties = obj_text(props.as_slice());
    let mut ms: Vec<Vec<char>> = Vec::new();
    let object: [char; 6] = ['o', 'b', 'j', 'e', 'c', 't'];
    ms.push(member_text("additionalProperties", chars_of("false").as_slice()));
    ms.push(member_text("properties", properties.as_slice()));
    let ghost head = views(ms@);
    match &t.required {
        Some(req) => {
            let rc = chars_of(req.as_str());
            let mut items: Vec<Vec<char>> = Vec::new();
            items.push(quote(rc.as_slice()));
            assert(views(items@) =~= seq![json_quoted(req@)]);
            let list = arr_text(items.as_slice());
            ms.push(member_text("required", list.as_slice()));
        },
        None => {},
    }
    let ghost mid = views(ms@);
    ms.push(member_quoted("type", object.as_slice()));
    proof {
        reveal_strlit("object");
        assert(object@ =~= "object"@);
        assert(head =~= seq![
            member("additionalProperties"@, "false"@),
            member("properties"@, obj(tv@.params.map_values(|p: ToolParamView| param_json(p)))),
        ]);
        assert(mid =~= head + match tv@.required {
            Some(r) => seq![member("required"@, arr(seq![json_quoted(r)]))],
            None => seq![],
        });
        assert(views(ms@) =~= mid + seq![member("type"@, json_quoted("object"@))]);
    }
    let schema = obj_text(ms.as_slice());
    let mut outer: Vec<Vec<char>> = Vec::new();
    let nc = chars_of(t.name.as_str());
    let dc = chars_of(t.description.as_str());
    outer.push(member_quoted("description", dc.as_slice()));
    outer.push(member_text("inputSchema", schema.as_slice()));
    outer.push(member_quoted("name", nc.as_slice()));
    assert(views(outer@) =~= seq![
        member("description"@, json_quoted(tv@.description)),
        member("inputSchema"@, schema_json(tv@)),
        member("name"@, json_quoted(tv@.name)),
    ]);
    obj_text(outer.as_slice())
}

/// The JSON array `tools/list` answers with for `tools`.
pub fn tools_text(tools: &[ToolSchema]) -> (r: Vec<char>)
    ensures
        r@ == tools_json(schema_views(tools@)),
{
    let ghost ts = schema_views(tools@);
    let mut items: Vec<Vec<char>> = Vec::new();
    let mut i: usize = 0;
    while i < tools.len()
        invariant
            i <= tools.len(),
            ts == schema_views(tools@),
            views(items@) == ts.take(i as int).map_values(|t: ToolSchemaView| tool_json(t)),
        decreases tools.len() - i,
    {
        let tt = tool_text(&tools[i]);
        let ghost before = views(items@);
        let ghost f = |t: ToolSchemaView| tool_json(t);
        items.push(tt);
        proof {
            assert(ts[i as int] == tools@[i as int]@);
            assert(views(items@) =~= before.push(tool_json(ts[i as int])));
            assert(ts.take(i + 1).map_values(f) =~= ts.take(i as int).map_values(f).push(f(ts[i as int])));
        }
        i = i + 1;
    }
    assert(ts.take(i as int) =~= ts);
    arr_text(items.as_slice())
}

// ------------------------------------------------------------------------------- law

/// What an integer argument comes out as under `p`'s schema: the given value (or `p`'s
/// default when absent) raised to `p`'s minimum and lowered to its maximum.
pub open spec fn schema_value(p: ToolParamView, given: Option<u64>) -> int {
    let v: int = match given {
        Some(n) => n as int,
        None => match p.default {
            Some(d) => d.whole as int,
            None => 0,
        },
    };
    let v1: int = match p.minimum {
        Some(m) => if v < m.whole { m.whole as int } else { v },
        None => v,
    };
    match p.maximum {
        Some(m) => if v1 > m.whole { m.whole as int } else { v1 },
        None => v1,
    }
}

/// The bounds and defaults `tools/list` advertises for the integer arguments (`click`'s
/// `nth`, `key`'s `repeat`, `wait`'s `ms`) are exactly what a parsed call applies.
pub proof fn law_schema_bounds_are_the_clamps(args: CallArgsView)
    ensures
        builtin_tools_spec()[2].name == "click"@ && builtin_tools_spec()[2].params[1].name == "nth"@
            && builtin_tools_spec()[2].params[1].kind == ParamKind::Integer,
        builtin_tools_spec()[4].name == "key"@ && builtin_tools_spec()[4].params[1].name == "repeat"@
            && builtin_tools_spec()[4].params[1].kind == ParamKind::Integer,
        builtin_tools_spec()[5].name == "wait"@ && builtin_tools_spec()[5].params[0].name == "ms"@
            && builtin_tools_spec()[5].params[0].kind == ParamKind::Integer,
        parse_call_spec("click"@, args) matches Ok(CommandView::Click { nth, .. })
            ==> nth == (schema_value(builtin_tools_spec()[2].params[1], args.nth) as u64 as usize) as nat,
        parse_call_spec("key"@, args) matches Ok(CommandView::Key { repeat, .. })
            ==> repeat == schema_value(builtin_tools_spec()[4].params[1], args.repeat),
        parse_call_spec("wait"@, args) matches Ok(CommandView::Wait { ms })
            ==> ms == schema_value(builtin_tools_spec()[5].params[0], args.ms),
{
    reveal_strlit("observe");
    reveal_strlit("screenshot");
    reveal_strlit("click");
    reveal_strlit("type");
    reveal_strlit("key");
    reveal_strlit("wait");
}

} // verus!
