//! The model-call task: formats a prompt from the blackboard, sends one
//! request through the transport, interprets the parsed response, and
//! dispatches registered tool tasks named by the response.

use vstd::prelude::*;

use crate::json::{
    arr_get, duplicate_items, field_views_of, lemma_views_of, obj_get, views_of, JsonData, JsonVal,
};
use crate::jsonio::{parse_json, render_json};
use crate::node::{HttpTransport, Node, RllmError};
use crate::state::{reserved_key, State, StateError};
use crate::text::{subst_all, substitute_placeholder};
use crate::tool::{Tool, ToolMap};

verus! {

/// The string values of the substitution keys, in order.
pub open spec fn var_values(m: Map<Seq<char>, JsonData>, vars: Seq<Seq<char>>) -> Seq<Seq<char>> {
    Seq::new(vars.len(), |i: int| m[vars[i]]->Str_0)
}

/// The error prompt substitution stops at, walking the keys in order:
/// `NotFound` at the first absent key, `TypeMismatch` at the first key whose
/// value is not a string, and none when every key is a string.
pub open spec fn prompt_error(m: Map<Seq<char>, JsonData>, vars: Seq<Seq<char>>) -> Option<
    StateError,
>
    decreases vars.len(),
{
    if vars.len() == 0 {
        None
    } else if !m.contains_key(vars.first()) {
        Some(StateError::NotFound)
    } else if !(m[vars.first()] is Str) {
        Some(StateError::TypeMismatch)
    } else {
        prompt_error(m, vars.drop_first())
    }
}

/// The prompt template with the keys' string values filled into its
/// placeholders, in order.
pub open spec fn substituted_prompt(
    m: Map<Seq<char>, JsonData>,
    template: Seq<char>,
    vars: Seq<Seq<char>>,
) -> Seq<char> {
    subst_all(template, var_values(m, vars))
}

/// The request payload: the model identifier, one user-role message holding
/// the prompt, and, only where any tools are configured, their descriptors.
pub open spec fn request_body(
    model: Seq<char>,
    prompt: Seq<char>,
    tool_list: Seq<JsonData>,
) -> JsonData {
    let message = JsonData::Obj(
        seq![("role"@, JsonData::Str("user"@)), ("content"@, JsonData::Str(prompt))],
    );
    let base = seq![
        ("model"@, JsonData::Str(model)),
        ("messages"@, JsonData::Arr(seq![message])),
    ];
    JsonData::Obj(
        if tool_list.len() == 0 {
            base
        } else {
            base.push(("tools"@, JsonData::Arr(tool_list)))
        },
    )
}

/// The first choice's message in a response tree; null where any step of the
/// path `choices[0].message` is missing.
pub open spec fn message_of(root: JsonData) -> JsonData {
    match obj_get(root, "choices"@) {
        Some(choices) => match arr_get(choices, 0) {
            Some(choice) => match obj_get(choice, "message"@) {
                Some(msg) => msg,
                None => JsonData::Null,
            },
            None => JsonData::Null,
        },
        None => JsonData::Null,
    }
}

/// The message's content field; null where the message has none.
pub open spec fn content_value(msg: JsonData) -> JsonData {
    match obj_get(msg, "content"@) {
        Some(c) => c,
        None => JsonData::Null,
    }
}

/// The called function's name in one tool-call entry: the string at
/// `function.name`, if the entry has one.
pub open spec fn tool_name_of(entry: JsonData) -> Option<Seq<char>> {
    match obj_get(entry, "function"@) {
        Some(f) => match obj_get(f, "name"@) {
            Some(JsonData::Str(s)) => Some(s),
            _ => None,
        },
        None => None,
    }
}

/// Whether a tool-call entry names a registered tool.
pub open spec fn entry_matched(entry: JsonData, tools: Map<Seq<char>, Tool>) -> bool {
    match tool_name_of(entry) {
        Some(n) => tools.contains_key(n),
        None => false,
    }
}

/// What interpreting a parsed response guarantees about the blackboard.
///
/// Without a `tool_calls` field the message content becomes the response
/// value and nothing can fail. With one, every entry is recorded as the
/// response value in turn — last entry wins — and each entry naming a
/// registered tool runs that tool's task, whose effect on the blackboard is
/// its own; a failure can only come from such a task.
pub open spec fn entries_outcome(
    pre: Map<Seq<char>, JsonData>,
    entries: Seq<JsonData>,
    tools: Map<Seq<char>, Tool>,
    post: Map<Seq<char>, JsonData>,
    ok: bool,
) -> bool {
    &&& (entries.len() == 0 ==> ok && post == pre)
    &&& ((entries.len() > 0 && (forall|i: int|
        0 <= i < entries.len() ==> !entry_matched(#[trigger] entries[i], tools))) ==> ok && post
        == pre.insert(reserved_key(), entries.last()))
    &&& ((entries.len() > 0 && ok && !entry_matched(entries.last(), tools))
        ==> post.contains_key(reserved_key()) && post[reserved_key()] == entries.last())
    &&& (!ok ==> exists|i: int|
        0 <= i < entries.len() && entry_matched(#[trigger] entries[i], tools))
}

pub open spec fn dispatch_outcome(
    pre: Map<Seq<char>, JsonData>,
    root: JsonData,
    tools: Map<Seq<char>, Tool>,
    post: Map<Seq<char>, JsonData>,
    ok: bool,
) -> bool {
    let msg = message_of(root);
    match obj_get(msg, "tool_calls"@) {
        None => ok && post == pre.insert(reserved_key(), content_value(msg)),
        Some(tc) => match tc {
            JsonData::Arr(entries) => entries_outcome(pre, entries, tools, post, ok),
            _ => ok && post == pre,
        },
    }
}

/// What a model-call task is configured with.
#[verifier::ext_equal]
pub ghost struct LLMNodeView {
    pub prompt: Seq<char>,
    pub prompt_vars: Seq<Seq<char>>,
    pub endpoint: Seq<char>,
    pub model: Seq<char>,
    pub api_key: Seq<char>,
    pub tools: Map<Seq<char>, Tool>,
    pub tool_list: Seq<JsonData>,
    pub has_transport: bool,
}

/// A task that performs one remote text-generation request and interprets
/// its result, including tool dispatch.
pub struct LLMNode {
    prompt: String,
    prompt_var_list: Vec<String>,
    endpoint: String,
    model: String,
    api_key: String,
    tools: ToolMap,
    tool_list: Vec<JsonVal>,
    transport: Option<HttpTransport>,
}

impl View for LLMNode {
    type V = LLMNodeView;

    closed spec fn view(&self) -> LLMNodeView {
        LLMNodeView {
            prompt: self.prompt@,
            prompt_vars: self.prompt_var_list.deep_view(),
            endpoint: self.endpoint@,
            model: self.model@,
            api_key: self.api_key@,
            tools: self.tools@,
            tool_list: views_of(self.tool_list@),
            has_transport: self.transport is Some,
        }
    }
}

impl LLMNode {
    /// A model-call task for the given endpoint and credential, with
    /// everything else still empty and no transport yet.
    pub fn new(endpoint: String, api_key: String) -> (n: LLMNode)
        ensures
            n@ == (LLMNodeView {
                prompt: Seq::<char>::empty(),
                prompt_vars: Seq::<Seq<char>>::empty(),
                endpoint: endpoint@,
                model: Seq::<char>::empty(),
                api_key: api_key@,
                tools: Map::<Seq<char>, Tool>::empty(),
                tool_list: Seq::<JsonData>::empty(),
                has_transport: false,
            }),
    {
        let n = LLMNode {
            prompt: String::new(),
            prompt_var_list: Vec::new(),
            endpoint,
            model: String::new(),
            api_key,
            tools: ToolMap::new(),
            tool_list: Vec::new(),
            transport: None,
        };
        proof {
            assert(n.prompt_var_list.deep_view() =~= Seq::<Seq<char>>::empty());
            assert(n@ =~= (LLMNodeView {
                prompt: Seq::<char>::empty(),
                prompt_vars: Seq::<Seq<char>>::empty(),
                endpoint: endpoint@,
                model: Seq::<char>::empty(),
                api_key: api_key@,
                tools: Map::<Seq<char>, Tool>::empty(),
                tool_list: Seq::<JsonData>::empty(),
                has_transport: false,
            }));
        }
        n
    }

    /// Sets the prompt template and the blackboard keys whose string values
    /// fill its placeholders, in order.
    pub fn set_prompt(&mut self, prompt: String, var_list: Vec<String>)
        ensures
            final(self)@ == (LLMNodeView {
                prompt: prompt@,
                prompt_vars: var_list.deep_view(),
                ..old(self)@
            }),
    {
        self.prompt = prompt;
        self.prompt_var_list = var_list;
        proof {
            assert(self@ =~= (LLMNodeView {
                prompt: self.prompt@,
                prompt_vars: self.prompt_var_list.deep_view(),
                ..old(self)@
            }));
        }
    }

    /// Sets the model identifier sent with every request.
    pub fn set_model(&mut self, model: String)
        ensures
            final(self)@ == (LLMNodeView { model: model@, ..old(self)@ }),
    {
        self.model = model;
        proof {
            assert(self@ =~= (LLMNodeView { model: self.model@, ..old(self)@ }));
        }
    }

    /// Sets the advertised tool descriptors and the lookup table dispatch
    /// goes through.
    pub fn set_tools(&mut self, tool_list: Vec<JsonVal>, tools: ToolMap)
        ensures
            final(self)@ == (LLMNodeView {
                tools: tools@,
                tool_list: views_of(tool_list@),
                ..old(self)@
            }),
    {
        self.tools = tools;
        self.tool_list = tool_list;
        proof {
            assert(self@ =~= (LLMNodeView {
                tools: self.tools@,
                tool_list: views_of(self.tool_list@),
                ..old(self)@
            }));
        }
    }

    /// Sets the transport requests are sent through.
    pub fn set_transport(&mut self, transport: HttpTransport)
        ensures
            final(self)@ == (LLMNodeView { has_transport: true, ..old(self)@ }),
    {
        self.transport = Some(transport);
        proof {
            assert(self@ =~= (LLMNodeView { has_transport: true, ..old(self)@ }));
        }
    }

    /// The prompt with each configured key's string value substituted into
    /// its next placeholder, in order; fails with the first key's lookup or
    /// kind error.
    fn build_prompt(&self, state: &State) -> (r: Result<String, StateError>)
        ensures
            match r {
                Ok(p) => prompt_error(state@, self@.prompt_vars) is None && p@
                    == substituted_prompt(state@, self@.prompt, self@.prompt_vars),
                Err(e) => prompt_error(state@, self@.prompt_vars) == Some(e),
            },
    {
        let ghost m = state@;
        let ghost vars = self@.prompt_vars;
        let ghost vvs = var_values(m, vars);
        let mut cur = self.prompt.clone();
        let mut k: usize = 0;
        proof {
            assert(vvs.skip(0) =~= vvs);
            assert(vars.skip(0) =~= vars);
        }
        while k < self.prompt_var_list.len()
            invariant
                k <= self.prompt_var_list@.len(),
                m == state@,
                vars == self@.prompt_vars,
                vars == self.prompt_var_list.deep_view(),
                vvs == var_values(m, vars),
                vars.len() == self.prompt_var_list@.len(),
                prompt_error(m, vars) == prompt_error(m, vars.skip(k as int)),
                subst_all(cur@, vvs.skip(k as int)) == subst_all(self@.prompt, vvs),
            decreases self.prompt_var_list@.len() - k,
        {
            proof {
                assert(vars.skip(k as int).first() == vars[k as int]);
                assert(vars.skip(k as int).drop_first() =~= vars.skip(k as int + 1));
                assert(vvs.skip(k as int).first() == vvs[k as int]);
                assert(vvs.skip(k as int).drop_first() =~= vvs.skip(k as int + 1));
                assert(vars[k as int] == self.prompt_var_list@[k as int]@);
            }
            let data = match state.get_rllm_string(self.prompt_var_list[k].as_str()) {
                Ok(s) => s,
                Err(e) => {
                    return Err(e);
                },
            };
            cur = substitute_placeholder(cur.as_str(), data.as_str());
            k = k + 1;
        }
        proof {
            assert(vars.skip(vars.len() as int) =~= Seq::<Seq<char>>::empty());
            assert(vvs.skip(vvs.len() as int) =~= Seq::<Seq<char>>::empty());
        }
        Ok(cur)
    }

    /// The request tree for a substituted prompt: model, one user message,
    /// and the tool descriptors only where any are configured.
    fn build_request(&self, prompt: String) -> (r: JsonVal)
        ensures
            r@ == request_body(self@.model, prompt@, self@.tool_list),
    {
        let ghost pv = prompt@;
        let mut message: Vec<(String, JsonVal)> = Vec::new();
        message.push(("role".to_owned(), JsonVal::Str("user".to_owned())));
        message.push(("content".to_owned(), JsonVal::Str(prompt)));
        let ghost msnap = message@;
        proof {
            crate::json::lemma_field_views_of(msnap);
            assert(field_views_of(msnap) =~= seq![
                ("role"@, JsonData::Str("user"@)),
                ("content"@, JsonData::Str(pv)),
            ]);
        }
        let mut messages: Vec<JsonVal> = Vec::new();
        messages.push(JsonVal::Obj(message));
        let ghost mssnap = messages@;
        proof {
            lemma_views_of(mssnap);
            assert(views_of(mssnap) =~= seq![JsonData::Obj(field_views_of(msnap))]);
        }
        let mut fields: Vec<(String, JsonVal)> = Vec::new();
        fields.push(("model".to_owned(), JsonVal::Str(self.model.clone())));
        fields.push(("messages".to_owned(), JsonVal::Arr(messages)));
        if self.tool_list.len() > 0 {
            let descriptors = duplicate_items(&self.tool_list);
            proof {
                lemma_views_of(descriptors@);
                lemma_views_of(self.tool_list@);
                assert(views_of(descriptors@) =~= views_of(self.tool_list@));
            }
            fields.push(("tools".to_owned(), JsonVal::Arr(descriptors)));
        }
        let ghost fsnap = fields@;
        let r = JsonVal::Obj(fields);
        proof {
            crate::json::lemma_field_views_of(fsnap);
            assert(field_views_of(fsnap) =~= (request_body(
                self@.model,
                pv,
                self@.tool_list,
            )->Obj_0));
            assert(r@ == request_body(self@.model, pv, self@.tool_list));
        }
        r
    }

    /// Interprets a parsed response against the blackboard: records tool-call
    /// entries as the response value and dispatches the registered tools they
    /// name, or records the message content where no tool calls are present.
    pub fn handle_response_tree(&self, state: &mut State, root: &JsonVal) -> (r: Result<
        (),
        RllmError,
    >)
        ensures
            dispatch_outcome(old(state)@, root@, self@.tools, final(state)@, r is Ok),
    {
        let msg = match Self::message_part(root) {
            Some(m) => m,
            None => {
                state.set_llm_response_json(JsonVal::Null);
                return Ok(());
            },
        };
        let tc = match msg.get_field("tool_calls") {
            Some(tc) => tc,
            None => {
                let content = match msg.get_field("content") {
                    Some(c) => c.duplicate(),
                    None => JsonVal::Null,
                };
                state.set_llm_response_json(content);
                return Ok(());
            },
        };
        let entries = match tc {
            JsonVal::Arr(entries) => entries,
            _ => {
                return Ok(());
            },
        };
        let ghost es = views_of(entries@);
        let ghost pre = state@;
        let ghost tools = self@.tools;
        proof {
            lemma_views_of(entries@);
        }
        let mut k: usize = 0;
        while k < entries.len()
            invariant
                k <= entries@.len(),
                es == views_of(entries@),
                es.len() == entries@.len(),
                forall|j: int| 0 <= j < es.len() ==> #[trigger] es[j] == entries@[j]@,
                tools == self@.tools,
                obj_get(message_of(root@), "tool_calls"@) == Some(JsonData::Arr(es)),
                pre == old(state)@,
                (forall|j: int| 0 <= j < k as int ==> !entry_matched(#[trigger] es[j], tools))
                    ==> ((k == 0 ==> state@ == pre) && (k > 0 ==> state@ == pre.insert(
                    reserved_key(),
                    es[k as int - 1],
                ))),
                k > 0 && !entry_matched(es[k as int - 1], tools) ==> state@.contains_key(
                    reserved_key(),
                ) && state@[reserved_key()] == es[k as int - 1],
            decreases entries@.len() - k,
        {
            state.set_llm_response_json(entries[k].duplicate());
            proof {
                if forall|j: int| 0 <= j < k as int ==> !entry_matched(#[trigger] es[j], tools) {
                    assert(state@ =~= pre.insert(reserved_key(), es[k as int]));
                }
            }
            let name = match Self::entry_tool_name(&entries[k]) {
                Some(n) => n,
                None => {
                    k = k + 1;
                    continue ;
                },
            };
            let tool = match self.tools.get(name.as_str()) {
                Some(t) => t,
                None => {
                    k = k + 1;
                    continue ;
                },
            };
            match tool.run_once(state) {
                Ok(()) => {},
                Err(e) => {
                    proof {
                        assert((k as int) < es.len() && entry_matched(es[k as int], tools));
                        assert(!(forall|i: int|
                            0 <= i < es.len() ==> !entry_matched(#[trigger] es[i], tools))) by {
                            assert(entry_matched(es[k as int], tools));
                        }
                        assert(exists|i: int|
                            0 <= i < es.len() && entry_matched(#[trigger] es[i], tools)) by {
                            assert((k as int) < es.len() && entry_matched(es[k as int], tools));
                        }
                        assert(entries_outcome(pre, es, tools, state@, false));
                        assert(dispatch_outcome(pre, root@, tools, state@, false));
                    }
                    return Err(e);
                },
            }
            k = k + 1;
        }
        Ok(())
    }

    /// The first choice's message of a response tree, if the path
    /// `choices[0].message` is all present.
    fn message_part(root: &JsonVal) -> (r: Option<&JsonVal>)
        ensures
            match r {
                Some(m) => message_of(root@) == m@,
                None => message_of(root@) == JsonData::Null,
            },
    {
        match root.get_field("choices") {
            Some(choices) => match choices.get_index(0) {
                Some(choice) => match choice.get_field("message") {
                    Some(m) => Some(m),
                    None => None,
                },
                None => None,
            },
            None => None,
        }
    }

    /// The registered-tool name one tool-call entry carries, if any.
    fn entry_tool_name(entry: &JsonVal) -> (r: Option<&String>)
        ensures
            match r {
                Some(s) => tool_name_of(entry@) == Some(s@),
                None => tool_name_of(entry@) is None,
            },
    {
        match entry.get_field("function") {
            Some(f) => match f.get_field("name") {
                Some(v) => match v {
                    JsonVal::Str(s) => Some(s),
                    _ => None,
                },
                None => None,
            },
            None => None,
        }
    }

    /// One full model call: substitutes the prompt from the blackboard,
    /// renders and sends the request, parses the textual response, and
    /// interprets it against the blackboard.
    ///
    /// Substitution and transport failures leave the blackboard unchanged and
    /// report exactly their cause; what the remote side returned is not known
    /// here, so a successful run guarantees only what interpreting some parsed
    /// response guarantees.
    pub fn execute(&self, state: &mut State) -> (r: Result<(), RllmError>)
        ensures
            match prompt_error(old(state)@, self@.prompt_vars) {
                Some(e) => r == Err::<(), RllmError>(RllmError::State(e)) && final(state)@ == old(state)@,
                None => {
                    &&& (!self@.has_transport ==> r == Err::<(), RllmError>(RllmError::NoTransport) && final(state)@
                        == old(state)@)
                    &&& (r is Ok ==> exists|root: JsonData|
                        dispatch_outcome(old(state)@, root, self@.tools, final(state)@, true))
                    &&& (r is Err ==> final(state)@ == old(state)@ || exists|root: JsonData|
                        dispatch_outcome(old(state)@, root, self@.tools, final(state)@, false))
                },
            },
    {
        let prompt = match self.build_prompt(state) {
            Ok(p) => p,
            Err(e) => {
                return Err(RllmError::State(e));
            },
        };
        let transport = match &self.transport {
            Some(t) => t,
            None => {
                return Err(RllmError::NoTransport);
            },
        };
        let body_val = self.build_request(prompt);
        let body_text = render_json(&body_val);
        let response = match transport.send(
            self.endpoint.as_str(),
            self.api_key.as_str(),
            body_text.as_str(),
        ) {
            Ok(t) => t,
            Err(msg) => {
                return Err(RllmError::Transport(msg));
            },
        };
        let root = match parse_json(response.as_str()) {
            Some(v) => v,
            None => {
                return Err(RllmError::MalformedResponse);
            },
        };
        let ghost root_view = root@;
        let res = self.handle_response_tree(state, &root);
        proof {
            assert(dispatch_outcome(old(state)@, root_view, self@.tools, state@, res is Ok));
        }
        res
    }
}

impl Node for LLMNode {
    fn execute(&self, state: &mut State) -> Result<(), RllmError> {
        LLMNode::execute(self, state)
    }
}


} // verus!
