//! Asking an analyst service about a symbol: what is told to it and what its
//! answer says.
use vstd::prelude::*;
use crate::cash::{signed, signed_text};
use crate::context::{found, CachedQuote, SymbolInfo};
use crate::json::{json_text, parse, Json, JsonTree};
use crate::number::{is_renderer, write_number, written, Decimals, Number};
use crate::reply::{bad_request, Reason, Refusal};
use crate::text::{join_text, joined, joined3, joined5, option_view, same, string_views};
use crate::textmap::TextMap;

verus! {

broadcast use vstd::string::group_string_axioms;

// ---------------------------------------------------------------------------
// Which service
// ---------------------------------------------------------------------------

/// Which service is asked, and how.
#[derive(Debug)]
pub struct AnalysisSetup {
    /// Whether the service speaks the chat-completion protocol rather than the
    /// message protocol.
    pub openai: bool,
    pub api_key: String,
    pub model: String,
}

/// The setting of that name.
pub open spec fn setting(config: Map<Seq<char>, String>, key: Seq<char>) -> Option<Seq<char>> {
    option_view(found(config, key))
}

/// Which service is asked by the configuration, and how; `usual` is the model
/// where none is set up.
pub open spec fn setup_of(config: Map<Seq<char>, String>, usual: Seq<char>) -> Result<
    (bool, Seq<char>, Seq<char>),
    (Reason, Seq<char>),
> {
    match setting(config, "ai_api_key"@) {
        Some(key) => if key.len() > 0 {
            Ok(
                (
                    setting(config, "ai_provider"@) == Some("openai"@),
                    key,
                    match setting(config, "ai_model"@) {
                        Some(m) => m,
                        None => usual,
                    },
                ),
            )
        } else {
            Err((Reason::BadRequest, "AI API key not configured. Set it in Configuration."@))
        },
        None => Err((Reason::BadRequest, "AI API key not configured. Set it in Configuration."@)),
    }
}

/// Which service is asked, by the configuration; `usual` is the model where none
/// is set up. Without a key none can be asked.
pub fn analysis_setup(config: &TextMap<String>, usual: &str) -> (r: Result<AnalysisSetup, Refusal>)
    ensures
        match r {
            Ok(s) => setup_of(config@, usual@) == Ok::<
                (bool, Seq<char>, Seq<char>),
                (Reason, Seq<char>),
            >((s.openai, s.api_key@, s.model@)),
            Err(e) => setup_of(config@, usual@) == Err::<
                (bool, Seq<char>, Seq<char>),
                (Reason, Seq<char>),
            >(e@),
        },
{
    match config.get("ai_api_key") {
        Some(key) => {
            if key.as_str().is_empty() {
                return Err(bad_request("AI API key not configured. Set it in Configuration."));
            }
            let openai = match config.get("ai_provider") {
                Some(p) => same(p.as_str(), "openai"),
                None => false,
            };
            let model = match config.get("ai_model") {
                Some(m) => m.clone(),
                None => usual.to_owned(),
            };
            Ok(AnalysisSetup { openai, api_key: key.clone(), model })
        },
        None => Err(bad_request("AI API key not configured. Set it in Configuration.")),
    }
}

// ---------------------------------------------------------------------------
// What is told
// ---------------------------------------------------------------------------

/// What is on record of the symbol.
#[derive(Debug)]
pub struct AnalysisFacts {
    pub quote: Option<CachedQuote>,
    pub info: Option<SymbolInfo>,
    /// The breakthrough price and the stop loss of a watched symbol.
    pub watch: Option<(Option<Number>, Option<Number>)>,
    pub watchlist_fields: Vec<(String, String)>,
    pub holdings_fields: Vec<(String, String)>,
}

/// `before`, a part and `after`, where there is such a part.
pub open spec fn part(before: Seq<char>, text: Option<Seq<char>>, after: Seq<char>) -> Seq<char> {
    match text {
        Some(t) => before + t + after,
        None => seq![],
    }
}

/// The number with two decimals, where there is one.
pub open spec fn two_decimals<R: Fn(Number, Decimals) -> String>(
    render: R,
    n: Option<Number>,
) -> Option<Seq<char>> {
    match n {
        Some(v) => Some(written(render, v, Decimals::Fixed(2))),
        None => None,
    }
}

/// What is told of the price.
pub open spec fn price_line<R: Fn(Number, Decimals) -> String>(
    quote: CachedQuote,
    render: R,
) -> Option<Seq<char>> {
    match quote.price {
        None => None,
        Some(p) => Some(
            "Current price: $"@ + written(render, p, Decimals::Fixed(2)) + part(
                ", change: "@,
                two_decimals(render, quote.change),
                ""@,
            ) + part(" ("@, two_decimals(render, quote.change_percent), "%)"@) + part(
                ", volume: "@,
                match quote.volume {
                    Some(v) => Some(signed_text(v as int)),
                    None => None,
                },
                ""@,
            ) + part(", as of "@, option_view(quote.price_date), ""@),
        ),
    }
}

/// The parts that are there.
pub open spec fn present(parts: Seq<Option<Seq<char>>>) -> Seq<Seq<char>>
    decreases parts.len(),
{
    if parts.len() == 0 {
        seq![]
    } else {
        match parts.last() {
            Some(p) => present(parts.drop_last()).push(p),
            None => present(parts.drop_last()),
        }
    }
}

/// A label and what it labels, where there is anything to label.
pub open spec fn labelled(label: Seq<char>, text: Option<Seq<char>>) -> Option<Seq<char>> {
    match text {
        Some(t) => Some(label + t),
        None => None,
    }
}

/// Some parts in one line, where there are any.
pub open spec fn one_line(label: Seq<char>, parts: Seq<Seq<char>>) -> Option<Seq<char>> {
    if parts.len() == 0 {
        None
    } else {
        Some(label + join_text(parts, ", "@))
    }
}

/// What is told of the instrument.
pub open spec fn info_line(info: SymbolInfo) -> Option<Seq<char>> {
    one_line(
        ""@,
        present(
            seq![
                labelled("Name: "@, option_view(info.long_name)),
                labelled("Type: "@, option_view(info.instrument_type)),
                labelled("Currency: "@, option_view(info.currency)),
            ],
        ),
    )
}

/// What is told of a watched symbol.
pub open spec fn watch_line<R: Fn(Number, Decimals) -> String>(
    watch: (Option<Number>, Option<Number>),
    render: R,
) -> Option<Seq<char>> {
    one_line(
        ""@,
        present(
            seq![
                labelled("Breakthrough Price: "@, two_decimals(render, watch.0)),
                labelled("Stop Loss Price: "@, two_decimals(render, watch.1)),
            ],
        ),
    )
}

/// The fields, each with its key.
pub open spec fn field_parts(fields: Seq<(String, String)>) -> Seq<Seq<char>> {
    Seq::new(fields.len(), |i: int| fields[i].0@ + ": "@ + fields[i].1@)
}

/// What is told of each thing on record.
pub open spec fn fact_parts<R: Fn(Number, Decimals) -> String>(
    facts: AnalysisFacts,
    render: R,
) -> Seq<Option<Seq<char>>> {
    seq![
        match facts.quote {
            Some(q) => price_line(q, render),
            None => None,
        },
        match facts.info {
            Some(i) => info_line(i),
            None => None,
        },
        match facts.watch {
            Some(w) => watch_line(w, render),
            None => None,
        },
        one_line("Watchlist fields: "@, field_parts(facts.watchlist_fields@)),
        one_line("Holdings fields: "@, field_parts(facts.holdings_fields@)),
    ]
}

/// The lines on what is on record.
pub open spec fn fact_lines<R: Fn(Number, Decimals) -> String>(
    facts: AnalysisFacts,
    render: R,
) -> Seq<Seq<char>> {
    present(fact_parts(facts, render))
}

/// What the service is told.
pub open spec fn prompt_text<R: Fn(Number, Decimals) -> String>(
    symbol: Seq<char>,
    facts: AnalysisFacts,
    render: R,
) -> Seq<char> {
    "You are a stock market analyst. Analyze the stock "@ + symbol
        + " using web search to find the latest news, analyst ratings, financial data, and technical analysis. Provide a comprehensive but concise analysis covering: recent news, fundamental outlook, technical indicators, and a summary recommendation.\n\nLocal data from user's portfolio:\n"@
        + if fact_lines(facts, render).len() == 0 {
        "No local data available."@
    } else {
        join_text(fact_lines(facts, render), "\n"@)
    }
}

fn join_strings(parts: &Vec<String>, sep: &str) -> (r: String)
    ensures
        r@ == join_text(string_views(parts@), sep@),
{
    let mut out = String::new();
    let ghost all = string_views(parts@);
    let mut i: usize = 0;
    assert(all.take(0) =~= seq![]);
    while i < parts.len()
        invariant
            i <= parts.len(),
            all == string_views(parts@),
            out@ == join_text(all.take(i as int), sep@),
        decreases parts.len() - i,
    {
        if i > 0 {
            out = out.concat(sep);
        }
        out = out.concat(parts[i].as_str());
        proof {
            assert(all.take(i + 1).drop_last() =~= all.take(i as int));
            assert(all.take(i + 1).last() == parts@[i as int]@);
            if i == 0 {
                assert(all.take(1)[0] == parts@[0]@);
                assert(out@ =~= parts@[0]@);
            }
        }
        i += 1;
    }
    assert(all.take(parts.len() as int) =~= all);
    out
}

/// Adds a part where there is one.
fn add_part(parts: &mut Vec<String>, part: Option<String>)
    ensures
        string_views(final(parts)@) == (match part {
            Some(p) => string_views(old(parts)@).push(p@),
            None => string_views(old(parts)@),
        }),
{
    match part {
        Some(p) => {
            let ghost before = string_views(parts@);
            parts.push(p);
            assert(string_views(parts@) =~= before.push(p@));
        },
        None => {},
    }
}

fn with_label(label: &str, text: &Option<String>) -> (r: Option<String>)
    ensures
        option_view(r) == labelled(label@, option_view(*text)),
{
    match text {
        Some(t) => Some(joined(label, t.as_str())),
        None => None,
    }
}

fn with_two_decimals<R: Fn(Number, Decimals) -> String>(n: Option<Number>, render: &R) -> (r:
    Option<String>)
    requires
        is_renderer(*render),
    ensures
        option_view(r) == two_decimals(*render, n),
{
    match n {
        Some(v) => Some(write_number(render, v, Decimals::Fixed(2))),
        None => None,
    }
}

fn line_of(label: &str, parts: &Vec<String>) -> (r: Option<String>)
    ensures
        option_view(r) == one_line(label@, string_views(parts@)),
{
    if parts.is_empty() {
        None
    } else {
        Some(joined(label, join_strings(parts, ", ").as_str()))
    }
}

fn tell_price<R: Fn(Number, Decimals) -> String>(quote: &CachedQuote, render: &R) -> (r: Option<
    String,
>)
    requires
        is_renderer(*render),
    ensures
        option_view(r) == price_line(*quote, *render),
{
    let price = match quote.price {
        None => return None,
        Some(p) => p,
    };
    proof {
        reveal_strlit("");
    }
    let mut line = joined(
        "Current price: $",
        write_number(render, price, Decimals::Fixed(2)).as_str(),
    );
    let ghost l0 = line@;
    match with_two_decimals(quote.change, render) {
        Some(t) => {
            line = joined3(line.as_str(), ", change: ", t.as_str());
            assert(line@ =~= l0 + part(", change: "@, Some(t@), ""@));
        },
        None => {
            assert(line@ =~= l0 + part(", change: "@, None, ""@));
        },
    }
    let ghost l1 = line@;
    match with_two_decimals(quote.change_percent, render) {
        Some(t) => {
            line = joined(joined3(line.as_str(), " (", t.as_str()).as_str(), "%)");
            assert(line@ =~= l1 + part(" ("@, Some(t@), "%)"@));
        },
        None => {
            assert(line@ =~= l1 + part(" ("@, None, "%)"@));
        },
    }
    let ghost l2 = line@;
    match quote.volume {
        Some(v) => {
            let t = signed(v);
            line = joined3(line.as_str(), ", volume: ", t.as_str());
            assert(line@ =~= l2 + part(", volume: "@, Some(t@), ""@));
        },
        None => {
            assert(line@ =~= l2 + part(", volume: "@, None, ""@));
        },
    }
    let ghost l3 = line@;
    match &quote.price_date {
        Some(t) => {
            line = joined3(line.as_str(), ", as of ", t.as_str());
            assert(line@ =~= l3 + part(", as of "@, Some(t@), ""@));
        },
        None => {
            assert(line@ =~= l3 + part(", as of "@, None, ""@));
        },
    }
    Some(line)
}

/// One more part.
proof fn lemma_present_push(parts: Seq<Option<Seq<char>>>, p: Option<Seq<char>>)
    ensures
        present(parts.push(p)) == (match p {
            Some(t) => present(parts).push(t),
            None => present(parts),
        }),
{
    assert(parts.push(p).drop_last() =~= parts);
}

fn tell_info(info: &SymbolInfo) -> (r: Option<String>)
    ensures
        option_view(r) == info_line(*info),
{
    let mut parts: Vec<String> = Vec::new();
    let ghost a = labelled("Name: "@, option_view(info.long_name));
    let ghost b = labelled("Type: "@, option_view(info.instrument_type));
    let ghost c = labelled("Currency: "@, option_view(info.currency));
    assert(string_views(parts@) =~= present(seq![]));
    add_part(&mut parts, with_label("Name: ", &info.long_name));
    proof {
        lemma_present_push(seq![], a);
    }
    add_part(&mut parts, with_label("Type: ", &info.instrument_type));
    proof {
        lemma_present_push(seq![].push(a), b);
    }
    add_part(&mut parts, with_label("Currency: ", &info.currency));
    proof {
        lemma_present_push(seq![].push(a).push(b), c);
        assert(seq![].push(a).push(b).push(c) =~= seq![a, b, c]);
    }
    line_of("", &parts)
}

fn tell_watch<R: Fn(Number, Decimals) -> String>(
    watch: (Option<Number>, Option<Number>),
    render: &R,
) -> (r: Option<String>)
    requires
        is_renderer(*render),
    ensures
        option_view(r) == watch_line(watch, *render),
{
    let mut parts: Vec<String> = Vec::new();
    let ghost a = labelled("Breakthrough Price: "@, two_decimals(*render, watch.0));
    let ghost b = labelled("Stop Loss Price: "@, two_decimals(*render, watch.1));
    assert(string_views(parts@) =~= present(seq![]));
    add_part(&mut parts, with_label("Breakthrough Price: ", &with_two_decimals(watch.0, render)));
    proof {
        lemma_present_push(seq![], a);
    }
    add_part(&mut parts, with_label("Stop Loss Price: ", &with_two_decimals(watch.1, render)));
    proof {
        lemma_present_push(seq![].push(a), b);
        assert(seq![].push(a).push(b) =~= seq![a, b]);
    }
    line_of("", &parts)
}

fn tell_fields(label: &str, fields: &Vec<(String, String)>) -> (r: Option<String>)
    ensures
        option_view(r) == one_line(label@, field_parts(fields@)),
{
    let mut parts: Vec<String> = Vec::new();
    let mut i: usize = 0;
    while i < fields.len()
        invariant
            i <= fields.len(),
            parts@.len() == i,
            forall|j: int|
                0 <= j < i ==> (#[trigger] parts@[j])@ == fields@[j].0@ + ": "@ + fields@[j].1@,
        decreases fields.len() - i,
    {
        parts.push(joined3(fields[i].0.as_str(), ": ", fields[i].1.as_str()));
        i += 1;
    }
    assert(string_views(parts@) =~= field_parts(fields@));
    line_of(label, &parts)
}

/// What the service is told: what to analyse, and what is on record of the
/// symbol.
pub fn analysis_prompt<R: Fn(Number, Decimals) -> String>(
    symbol: &str,
    facts: &AnalysisFacts,
    render: &R,
) -> (r: String)
    requires
        is_renderer(*render),
    ensures
        r@ == prompt_text(symbol@, *facts, *render),
{
    let mut lines: Vec<String> = Vec::new();
    let price = match &facts.quote {
        Some(q) => tell_price(q, render),
        None => None,
    };
    let info = match &facts.info {
        Some(i) => tell_info(i),
        None => None,
    };
    let watch = match facts.watch {
        Some(w) => tell_watch(w, render),
        None => None,
    };
    let ghost a = option_view(price);
    let ghost b = option_view(info);
    let ghost c = option_view(watch);
    let ghost d = one_line("Watchlist fields: "@, field_parts(facts.watchlist_fields@));
    let ghost e = one_line("Holdings fields: "@, field_parts(facts.holdings_fields@));
    assert(string_views(lines@) =~= present(seq![]));
    add_part(&mut lines, price);
    proof {
        lemma_present_push(seq![], a);
    }
    add_part(&mut lines, info);
    proof {
        lemma_present_push(seq![].push(a), b);
    }
    add_part(&mut lines, watch);
    proof {
        lemma_present_push(seq![].push(a).push(b), c);
    }
    add_part(&mut lines, tell_fields("Watchlist fields: ", &facts.watchlist_fields));
    proof {
        lemma_present_push(seq![].push(a).push(b).push(c), d);
    }
    add_part(&mut lines, tell_fields("Holdings fields: ", &facts.holdings_fields));
    proof {
        lemma_present_push(seq![].push(a).push(b).push(c).push(d), e);
        assert(seq![].push(a).push(b).push(c).push(d).push(e) =~= seq![a, b, c, d, e]);
        assert(string_views(lines@) == present(seq![a, b, c, d, e]));
        assert(fact_parts(*facts, *render) =~= seq![a, b, c, d, e]);
    }
    let local = if lines.is_empty() {
        "No local data available.".to_owned()
    } else {
        join_strings(&lines, "\n")
    };
    let r = joined(
        joined3(
            "You are a stock market analyst. Analyze the stock ",
            symbol,
            " using web search to find the latest news, analyst ratings, financial data, and technical analysis. Provide a comprehensive but concise analysis covering: recent news, fundamental outlook, technical indicators, and a summary recommendation.\n\nLocal data from user's portfolio:\n",
        ).as_str(),
        local.as_str(),
    );
    r
}


// ---------------------------------------------------------------------------
// What is sent
// ---------------------------------------------------------------------------

/// A message of the talk.
#[derive(Debug)]
pub struct AnalysisMessage {
    pub role: String,
    pub content: String,
}

/// A message as it is sent.
pub open spec fn message_tree(role: Seq<char>, content: Seq<char>) -> JsonTree {
    JsonTree::Object(
        seq![("role"@, JsonTree::Text(role)), ("content"@, JsonTree::Text(content))],
    )
}

/// The messages as they are sent.
pub open spec fn message_trees(messages: Seq<AnalysisMessage>) -> Seq<JsonTree> {
    Seq::new(messages.len(), |i: int| message_tree(messages[i].role@, messages[i].content@))
}

/// What is sent to a service that speaks the message protocol.
pub open spec fn message_request(
    model: Seq<char>,
    prompt: Seq<char>,
    messages: Seq<AnalysisMessage>,
) -> JsonTree {
    JsonTree::Object(
        seq![
            ("model"@, JsonTree::Text(model)),
            ("max_tokens"@, JsonTree::Number(Some(4096))),
            ("system"@, JsonTree::Text(prompt)),
            (
                "tools"@,
                JsonTree::Array(
                    seq![
                        JsonTree::Object(
                            seq![
                                ("type"@, JsonTree::Text("web_search_20250305"@)),
                                ("name"@, JsonTree::Text("web_search"@)),
                                ("max_uses"@, JsonTree::Number(Some(5))),
                            ],
                        ),
                    ],
                ),
            ),
            ("messages"@, JsonTree::Array(message_trees(messages))),
        ],
    )
}

/// What is sent to a service that speaks the chat-completion protocol: the
/// prompt is the first message.
pub open spec fn chat_request(
    model: Seq<char>,
    prompt: Seq<char>,
    messages: Seq<AnalysisMessage>,
) -> JsonTree {
    JsonTree::Object(
        seq![
            ("model"@, JsonTree::Text(model)),
            (
                "messages"@,
                JsonTree::Array(seq![message_tree("system"@, prompt)] + message_trees(messages)),
            ),
            ("max_tokens"@, JsonTree::Number(Some(4096))),
        ],
    )
}

fn named(name: &str, value: Json) -> (r: (String, Json))
    ensures
        r.0@ == name@,
        r.1 == value,
{
    (name.to_owned(), value)
}

fn text(s: &str) -> (r: Json)
    ensures
        r.tree() == JsonTree::Text(s@),
{
    Json::Text(s.to_owned())
}

fn whole(n: u64) -> (r: Json)
    ensures
        r.tree() == JsonTree::Number(Some(n)),
{
    Json::Number(Some(n))
}

fn message(role: &str, content: &str) -> (r: Json)
    ensures
        r.tree() == message_tree(role@, content@),
{
    let r = Json::Object(vec![named("role", text(role)), named("content", text(content))]);
    assert(r.tree()->Object_0 =~= message_tree(role@, content@)->Object_0);
    r
}

/// Adds the messages to those that are sent.
fn add_messages(out: &mut Vec<Json>, messages: &Vec<AnalysisMessage>)
    ensures
        final(out)@.len() == old(out)@.len() + messages@.len(),
        forall|i: int| 0 <= i < old(out)@.len() ==> final(out)@[i] == old(out)@[i],
        forall|i: int|
            0 <= i < messages@.len() ==> (#[trigger] final(out)@[old(out)@.len() + i]).tree()
                == message_tree(messages@[i].role@, messages@[i].content@),
{
    let mut i: usize = 0;
    let ghost n = out@.len();
    while i < messages.len()
        invariant
            i <= messages.len(),
            n == old(out)@.len(),
            out@.len() == n + i,
            forall|j: int| 0 <= j < n ==> out@[j] == old(out)@[j],
            forall|j: int|
                0 <= j < i ==> (#[trigger] out@[n + j]).tree() == message_tree(
                    messages@[j].role@,
                    messages@[j].content@,
                ),
        decreases messages.len() - i,
    {
        out.push(message(messages[i].role.as_str(), messages[i].content.as_str()));
        i += 1;
    }
}

/// What is sent to a service that speaks the message protocol.
pub fn anthropic_request(model: &str, prompt: &str, messages: &Vec<AnalysisMessage>) -> (r: Json)
    ensures
        r.tree() == message_request(model@, prompt@, messages@),
{
    let mut sent: Vec<Json> = Vec::new();
    add_messages(&mut sent, messages);
    let sent = Json::Array(sent);
    assert(sent.tree()->Array_0 =~= message_trees(messages@)) by {
        assert forall|i: int| 0 <= i < messages@.len() implies sent.tree()->Array_0[i]
            == #[trigger] message_trees(messages@)[i] by {
            assert(sent->Array_0@[0 + i].tree() == message_tree(
                messages@[i].role@,
                messages@[i].content@,
            ));
        }
    }
    let tool = Json::Object(
        vec![
            named("type", text("web_search_20250305")),
            named("name", text("web_search")),
            named("max_uses", whole(5)),
        ],
    );
    let ghost tool_tree = JsonTree::Object(
        seq![
            ("type"@, JsonTree::Text("web_search_20250305"@)),
            ("name"@, JsonTree::Text("web_search"@)),
            ("max_uses"@, JsonTree::Number(Some(5))),
        ],
    );
    assert(tool.tree()->Object_0 =~= tool_tree->Object_0);
    let tools = Json::Array(vec![tool]);
    assert(tools.tree()->Array_0 =~= seq![tool_tree]);
    assert(tools.tree() == JsonTree::Array(seq![tool_tree]));
    assert(sent.tree() == JsonTree::Array(message_trees(messages@)));
    let r = Json::Object(
        vec![
            named("model", text(model)),
            named("max_tokens", whole(4096)),
            named("system", text(prompt)),
            named("tools", tools),
            named("messages", sent),
        ],
    );
    assert(r.tree()->Object_0 =~= message_request(model@, prompt@, messages@)->Object_0);
    r
}

/// What is sent to a service that speaks the chat-completion protocol.
pub fn openai_request(model: &str, prompt: &str, messages: &Vec<AnalysisMessage>) -> (r: Json)
    ensures
        r.tree() == chat_request(model@, prompt@, messages@),
{
    let mut sent: Vec<Json> = Vec::new();
    sent.push(message("system", prompt));
    add_messages(&mut sent, messages);
    let sent = Json::Array(sent);
    let ghost trees = seq![message_tree("system"@, prompt@)] + message_trees(messages@);
    assert(sent.tree()->Array_0 =~= trees) by {
        assert forall|i: int| 0 <= i < trees.len() implies sent.tree()->Array_0[i]
            == #[trigger] trees[i] by {
            if i > 0 {
                assert(sent->Array_0@[1 + (i - 1)].tree() == message_tree(
                    messages@[i - 1].role@,
                    messages@[i - 1].content@,
                ));
            }
        }
    }
    assert(sent.tree() == JsonTree::Array(trees));
    let r = Json::Object(
        vec![
            named("model", text(model)),
            named("messages", sent),
            named("max_tokens", whole(4096)),
        ],
    );
    assert(r.tree()->Object_0 =~= chat_request(model@, prompt@, messages@)->Object_0);
    r
}

// ---------------------------------------------------------------------------
// What is answered
// ---------------------------------------------------------------------------

/// The items of a list, none where the value is no list.
pub open spec fn items_of(tree: Option<JsonTree>) -> Seq<JsonTree> {
    match tree {
        Some(JsonTree::Array(items)) => items,
        _ => seq![],
    }
}

/// The text of a field of a value.
pub open spec fn text_field(tree: JsonTree, name: Seq<char>) -> Option<Seq<char>> {
    match tree.field(name) {
        Some(t) => t.text(),
        None => None,
    }
}

/// The texts of the text blocks, one after another.
pub open spec fn block_text(blocks: Seq<JsonTree>) -> Seq<char>
    decreases blocks.len(),
{
    if blocks.len() == 0 {
        seq![]
    } else {
        let b = blocks.last();
        let earlier = block_text(blocks.drop_last());
        if text_field(b, "type"@) == Some("text"@) && text_field(b, "text"@) is Some {
            earlier + text_field(b, "text"@)->0
        } else {
            earlier
        }
    }
}

/// What the body of an answer in the message protocol says.
pub open spec fn message_answer(parsed: Result<JsonTree, Seq<char>>, body: Seq<char>) -> Result<
    Seq<char>,
    Seq<char>,
> {
    match parsed {
        Err(e) => Err("Failed to parse Anthropic response: "@ + e),
        Ok(tree) => {
            let said = block_text(items_of(tree.field("content"@)));
            if said.len() == 0 {
                Err("No text in Anthropic response: "@ + body)
            } else {
                Ok(said)
            }
        },
    }
}

/// What the body of an answer in the chat-completion protocol says.
pub open spec fn chat_answer(parsed: Result<JsonTree, Seq<char>>, body: Seq<char>) -> Result<
    Seq<char>,
    Seq<char>,
> {
    match parsed {
        Err(e) => Err("Failed to parse OpenAI response: "@ + e),
        Ok(tree) => {
            let choices = items_of(tree.field("choices"@));
            let said = if choices.len() == 0 {
                None
            } else {
                match choices[0].field("message"@) {
                    Some(m) => text_field(m, "content"@),
                    None => None,
                }
            };
            match said {
                Some(t) => Ok(t),
                None => Err("No content in OpenAI response: "@ + body),
            }
        },
    }
}

/// The views of what came of parsing.
pub open spec fn parsed_view(parsed: Result<Json, String>) -> Result<JsonTree, Seq<char>> {
    match parsed {
        Ok(j) => Ok(j.tree()),
        Err(e) => Err(e@),
    }
}

/// The views of an answer.
pub open spec fn answer_view(r: Result<String, String>) -> Result<Seq<char>, Seq<char>> {
    match r {
        Ok(t) => Ok(t@),
        Err(e) => Err(e@),
    }
}

fn field_text<'a>(j: &'a Json, name: &str) -> (r: Option<&'a str>)
    ensures
        crate::text::option_slice_view(r) == text_field(j.tree(), name@),
{
    match j.field(name) {
        Some(f) => f.as_text(),
        None => None,
    }
}

/// What a parsed answer in the message protocol says.
pub fn judge_anthropic(parsed: Result<Json, String>, body: &str) -> (r: Result<String, String>)
    ensures
        answer_view(r) == message_answer(parsed_view(parsed), body@),
{
    let data = match parsed {
        Err(e) => return Err(joined("Failed to parse Anthropic response: ", e.as_str())),
        Ok(j) => j,
    };
    let mut said = String::new();
    let ghost blocks = items_of(data.tree().field("content"@));
    if let Some(Json::Array(content)) = data.field("content") {
        assert(blocks.len() == content@.len());
        assert(forall|i: int| 0 <= i < content@.len() ==> blocks[i] == content@[i].tree());
        let mut i: usize = 0;
        assert(blocks.take(0) =~= seq![]);
        while i < content.len()
            invariant
                i <= content.len(),
                blocks.len() == content@.len(),
                forall|i: int| 0 <= i < content@.len() ==> blocks[i] == content@[i].tree(),
                said@ == block_text(blocks.take(i as int)),
            decreases content.len() - i,
        {
            let block = &content[i];
            proof {
                assert(blocks.take(i + 1).drop_last() =~= blocks.take(i as int));
                assert(blocks.take(i + 1).last() == block.tree());
            }
            let is_text = match field_text(block, "type") {
                Some(t) => same(t, "text"),
                None => false,
            };
            if is_text {
                if let Some(t) = field_text(block, "text") {
                    said = said.concat(t);
                }
            }
            i += 1;
        }
        assert(blocks.take(content.len() as int) =~= blocks);
    }
    if said.as_str().is_empty() {
        Err(joined("No text in Anthropic response: ", body))
    } else {
        Ok(said)
    }
}

/// What a parsed answer in the chat-completion protocol says.
pub fn judge_openai(parsed: Result<Json, String>, body: &str) -> (r: Result<String, String>)
    ensures
        answer_view(r) == chat_answer(parsed_view(parsed), body@),
{
    let data = match parsed {
        Err(e) => return Err(joined("Failed to parse OpenAI response: ", e.as_str())),
        Ok(j) => j,
    };
    if let Some(Json::Array(choices)) = data.field("choices") {
        let ghost trees = items_of(data.tree().field("choices"@));
        assert(trees.len() == choices@.len());
        if choices.len() > 0 {
            assert(trees[0] == choices@[0].tree());
            if let Some(m) = choices[0].field("message") {
                if let Some(t) = field_text(m, "content") {
                    return Ok(t.to_owned());
                }
            }
        }
    }
    Err(joined("No content in OpenAI response: ", body))
}

/// What the service said, or what is told of its failure: `name` is the
/// service's and `status` the status line of its answer.
pub open spec fn service_error(name: Seq<char>, status: Seq<char>, body: Seq<char>) -> Seq<char> {
    name + " API error ("@ + status + "): "@ + body
}

/// What a service that speaks the message protocol answered.
pub fn anthropic_answer(success: bool, status: &str, body: &str) -> (r: Result<String, String>)
    ensures
        answer_view(r) == (if !success {
            Err(service_error("Anthropic"@, status@, body@))
        } else {
            message_answer(json_text(body@), body@)
        }),
{
    if !success {
        return Err(joined5("Anthropic", " API error (", status, "): ", body));
    }
    judge_anthropic(parse(body), body)
}

/// What a service that speaks the chat-completion protocol answered.
pub fn openai_answer(success: bool, status: &str, body: &str) -> (r: Result<String, String>)
    ensures
        answer_view(r) == (if !success {
            Err(service_error("OpenAI"@, status@, body@))
        } else {
            chat_answer(json_text(body@), body@)
        }),
{
    if !success {
        return Err(joined5("OpenAI", " API error (", status, "): ", body));
    }
    judge_openai(parse(body), body)
}

/// An answer is never empty in the message protocol.
pub proof fn an_answer_says_something(parsed: Result<JsonTree, Seq<char>>, body: Seq<char>)
    ensures
        message_answer(parsed, body) is Ok ==> message_answer(parsed, body)->Ok_0.len() > 0,
{
}

/// The answer of the message protocol is its blocks of text one after another;
/// other blocks say nothing. An answer that says nothing is an error.
pub proof fn an_answer_is_its_blocks_of_text(blocks: Seq<JsonTree>, b: JsonTree)
    ensures
        ({
            let says = text_field(b, "type"@) == Some("text"@) && text_field(b, "text"@) is Some;
            &&& says ==> block_text(blocks.push(b)) == block_text(blocks) + text_field(
                b,
                "text"@,
            )->0
            &&& !says ==> block_text(blocks.push(b)) == block_text(blocks)
        }),
{
    assert(blocks.push(b).drop_last() =~= blocks);
}

/// An analysis needs a key; the service is the one of the message protocol unless
/// the other is named, and the model the usual one unless one is.
pub proof fn what_an_analysis_needs(config: Map<Seq<char>, String>, usual: Seq<char>)
    ensures
        ({
            let keyed = config.contains_key("ai_api_key"@) && config["ai_api_key"@]@.len() > 0;
            &&& !keyed ==> setup_of(config, usual) is Err && (setup_of(config, usual)->Err_0).0
                == Reason::BadRequest
            &&& keyed ==> (setup_of(config, usual) matches Ok(s) && s.1 == config["ai_api_key"@]@
                && (s.0 <==> config.contains_key("ai_provider"@) && config["ai_provider"@]@
                == "openai"@) && (config.contains_key("ai_model"@) ==> s.2
                == config["ai_model"@]@) && (!config.contains_key("ai_model"@) ==> s.2 == usual))
        }),
{
}

/// What is known is told and what is not is left out, in the order given; a line
/// without anything to tell is left out whole.
pub proof fn what_is_known_is_told(
    parts: Seq<Option<Seq<char>>>,
    p: Seq<char>,
    label: Seq<char>,
    first: Seq<char>,
    second: Seq<char>,
)
    ensures
        present(Seq::empty()) == Seq::<Seq<char>>::empty(),
        present(parts.push(Some(p))) == present(parts).push(p),
        present(parts.push(None)) == present(parts),
        labelled(label, Some(p)) == Some(label + p),
        labelled(label, None) is None,
        one_line(label, Seq::empty()) is None,
        one_line(label, seq![first, second]) == Some(label + (first + ", "@ + second)),
{
    assert(parts.push(Some(p)).drop_last() =~= parts);
    assert(parts.push(None).drop_last() =~= parts);
    reveal_with_fuel(join_text, 3);
    assert(seq![first, second].drop_last() =~= seq![first]);
    assert(seq![first].drop_last() =~= seq![]);
    assert(join_text(seq![first, second], ", "@) =~= first + ", "@ + second);
}

/// A price is told with what is known of its change, its volume and its day, and
/// without a price nothing of it is.
pub proof fn how_a_price_is_told<R: Fn(Number, Decimals) -> String>(
    quote: CachedQuote,
    render: R,
    price: Number,
)
    requires
        quote.price == Some(price),
    ensures
        ({
            let told = price_line(quote, render);
            let start = "Current price: $"@ + written(render, price, Decimals::Fixed(2));
            &&& told is Some
            &&& start.is_prefix_of(told->0)
            &&& quote.change is None && quote.change_percent is None && quote.volume is None
                && quote.price_date is None ==> told->0 == start
            &&& quote.change is Some ==> (start + ", change: "@ + written(
                render,
                quote.change->0,
                Decimals::Fixed(2),
            )).is_prefix_of(told->0)
            &&& quote.change is None && quote.change_percent is Some ==> (start + " ("@ + written(
                render,
                quote.change_percent->0,
                Decimals::Fixed(2),
            ) + "%)"@).is_prefix_of(told->0)
        }),
        price_line(CachedQuote { price: None, ..quote }, render) is None,
{
    reveal_strlit("");
    let told = price_line(quote, render)->0;
    let start = "Current price: $"@ + written(render, price, Decimals::Fixed(2));
    assert(told.take(start.len() as int) =~= start);
    if quote.change is Some {
        let longer = start + ", change: "@ + written(
            render,
            quote.change->0,
            Decimals::Fixed(2),
        );
        assert(told.take(longer.len() as int) =~= longer);
    } else if quote.change_percent is Some {
        let longer = start + " ("@ + written(
            render,
            quote.change_percent->0,
            Decimals::Fixed(2),
        ) + "%)"@;
        assert(told.take(longer.len() as int) =~= longer);
    }
    if quote.change is None && quote.change_percent is None && quote.volume is None
        && quote.price_date is None {
        assert(told =~= start);
    }
}

} // verus!
