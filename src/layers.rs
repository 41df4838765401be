//! The layered pre-processor: sub-sessions with their own prompt, model and
//! tool subset that run on the first user turn, in order, before the main
//! turn.
use vstd::prelude::*;
use vstd::string::*;
use crate::log::{LogError, Message, MessageLog, MessageView, Role};
use crate::text::to_owned_string;
use crate::tools::{parse_tool_calls, CallView, McpToolCall};

verus! {

/// How a layer's output feeds the next layer.
#[derive(Debug, Clone, Copy, PartialEq, Eq, Structural)]
pub enum InputMode {
    /// The next layer gets the output alone.
    Replace,
    /// The next layer gets the input followed by the output.
    Append,
    /// The next layer gets the output followed by the input.
    Prepend,
}

/// Whether a layer's output goes into the main session's log.
#[derive(Debug, Clone, Copy, PartialEq, Eq, Structural)]
pub enum OutputMode {
    /// The output stays inside the layer.
    Discard,
    Append,
    Replace,
}

/// One layer. `temperature` is in hundredths.
#[derive(Debug, PartialEq)]
pub struct LayerConfig {
    pub name: String,
    pub model: Option<String>,
    pub temperature: u32,
    pub system_prompt: String,
    pub input_mode: InputMode,
    pub output_mode: OutputMode,
    pub allowed_tools: Vec<String>,
    pub server_refs: Vec<String>,
}

/// The input of the next layer.
pub open spec fn next_layer_input(mode: InputMode, input: Seq<char>, output: Seq<char>) -> Seq<char> {
    match mode {
        InputMode::Replace => output,
        InputMode::Append => input + "\n\n"@ + output,
        InputMode::Prepend => output + "\n\n"@ + input,
    }
}

/// The input of the next layer, from this layer's input and output.
pub fn combine_layer_input(mode: InputMode, input: &str, output: &str) -> (r: String)
    ensures
        r@ == next_layer_input(mode, input@, output@),
{
    match mode {
        InputMode::Replace => to_owned_string(output),
        InputMode::Append => {
            let mut s = to_owned_string(input);
            s.append("\n\n");
            s.append(output);
            s
        },
        InputMode::Prepend => {
            let mut s = to_owned_string(output);
            s.append("\n\n");
            s.append(input);
            s
        },
    }
}

/// Layers run on the first user turn only, and only when enabled.
pub fn should_run_layers(first_turn: bool, layers_enabled: bool) -> (r: bool)
    ensures
        r == (first_turn && layers_enabled),
{
    first_turn && layers_enabled
}

/// The user's own input goes into the main log only when no layer
/// writes its own output there.
pub fn should_append_user_input(layers: &Vec<LayerConfig>) -> (r: bool)
    ensures
        r == forall|k: int| 0 <= k < layers@.len() ==> (#[trigger] layers@[k]).output_mode == OutputMode::Discard,
{
    let mut i: usize = 0;
    while i < layers.len()
        invariant
            i <= layers@.len(),
            forall|k: int| 0 <= k < i ==> (#[trigger] layers@[k]).output_mode == OutputMode::Discard,
        decreases layers.len() - i,
    {
        if layers[i].output_mode != OutputMode::Discard {
            return false;
        }
        i = i + 1;
    }
    true
}

/// The working state of one layer run: its name, model and message log.
pub struct LayerSession {
    pub name: String,
    pub model: String,
    pub log: MessageLog,
}

/// A layer driven by its configuration.
pub struct GenericLayer {
    config: LayerConfig,
}

impl GenericLayer {
    pub fn new(config: LayerConfig) -> (r: Self)
        ensures
            r.spec_config() == config,
    {
        GenericLayer { config }
    }

    pub closed spec fn spec_config(&self) -> LayerConfig {
        self.config
    }

    pub fn name(&self) -> (r: &str)
        ensures
            r@ == self.spec_config().name@,
    {
        self.config.name.as_str()
    }

    pub fn config(&self) -> (r: &LayerConfig)
        ensures
            *r == self.spec_config(),
    {
        &self.config
    }

    /// The layer's model, or the session's when it names none.
    pub fn effective_model(&self, session_model: &str) -> (r: String)
        ensures
            r@ == match self.spec_config().model {
                Some(m) => m@,
                None => session_model@,
            },
    {
        match &self.config.model {
            Some(m) => m.clone(),
            None => to_owned_string(session_model),
        }
    }

    /// The layer's opening messages: its system prompt (marked for caching
    /// when `should_cache`, i.e. when the layer's model supports prompt
    /// caching) and the input as a user message.
    pub fn create_messages(&self, input: &str, should_cache: bool, now: u64) -> (r: Vec<Message>)
        ensures
            r@.len() == 2,
            r@[0]@.role == Role::System,
            r@[0]@.content == self.spec_config().system_prompt@,
            r@[0]@.cached == should_cache,
            r@[0]@.tool_calls.len() == 0,
            r@[1]@.role == Role::User,
            r@[1]@.content == input@,
            !r@[1]@.cached,
            r@[1]@.tool_calls.len() == 0,
    {
        let mut out: Vec<Message> = Vec::new();
        out.push(
            Message {
                role: Role::System,
                content: self.config.system_prompt.clone(),
                timestamp: now,
                cached: should_cache,
                tool_call_id: None,
                name: None,
                tool_calls: Vec::new(),
            },
        );
        out.push(
            Message {
                role: Role::User,
                content: to_owned_string(input),
                timestamp: now,
                cached: false,
                tool_call_id: None,
                name: None,
                tool_calls: Vec::new(),
            },
        );
        out
    }

    /// The tool calls of this iteration: those the provider returned, used
    /// once; afterwards none.
    pub fn resolve_layer_tool_calls(
        &self,
        current_tool_calls_param: &mut Option<Vec<McpToolCall>>,
        current_content: &str,
    ) -> (r: Vec<McpToolCall>)
        ensures
            (*final(current_tool_calls_param)) is None,
            match *old(current_tool_calls_param) {
                Some(calls) => r@ == calls@,
                None => r@.len() == 0,
            },
    {
        match current_tool_calls_param.take() {
            Some(calls) => {
                if calls.len() > 0 {
                    calls
                } else {
                    parse_tool_calls(current_content)
                }
            },
            None => parse_tool_calls(current_content),
        }
    }

    /// Appends the assistant's reply with its tool calls to the layer's log.
    pub fn add_layer_assistant_message_with_tool_calls(
        &self,
        layer_session: &mut LayerSession,
        current_content: &str,
        tool_calls: Vec<McpToolCall>,
        now: u64,
    ) -> (r: Result<(), LogError>)
        requires
            old(layer_session).log.wf(),
        ensures
            final(layer_session).log.wf(),
            r is Ok ==> final(layer_session).log@.last().role == Role::Assistant
                && final(layer_session).log@.last().content == current_content@
                && final(layer_session).log@.len() == old(layer_session).log@.len() + 1,
            r is Err ==> final(layer_session).log@ == old(layer_session).log@,
    {
        let msg = Message {
            role: Role::Assistant,
            content: to_owned_string(current_content),
            timestamp: now,
            cached: false,
            tool_call_id: None,
            name: None,
            tool_calls,
        };
        layer_session.log.append(msg)
    }

    /// A fresh session for one run of this layer, named `layer_<name>`,
    /// whose log opens with the layer's system prompt and `input`.
    pub fn create_layer_chat_session(
        &self,
        input: &str,
        session_model: &str,
        should_cache: bool,
        now: u64,
    ) -> (r: LayerSession)
        ensures
            r.log.wf(),
            r.name@ == "layer_"@ + self.spec_config().name@,
            r.log@.len() == 2,
            r.log@[0].role == Role::System,
            r.log@[0].content == self.spec_config().system_prompt@,
            r.log@[1].role == Role::User,
            r.log@[1].content == input@,
            r.log@[0].cached == should_cache,
            r.model@ == match self.spec_config().model {
                Some(m) => m@,
                None => session_model@,
            },
    {
        let mut msgs = self.create_messages(input, should_cache, now);
        let user = msgs.pop().unwrap();
        let system = msgs.pop().unwrap();
        let cache_system = system.cached;
        let mut log = MessageLog::new();
        assert(system@.tool_calls =~= Seq::<CallView>::empty());
        let a = log.append(system);
        assert(a is Ok);
        proof {
            log.lemma_wf();
            assert(log@.drop_last() =~= Seq::<MessageView>::empty());
            assert(log.pending() =~= Seq::<Seq<char>>::empty());
        }
        let b = log.append(user);
        assert(b is Ok);
        if cache_system {
            log.mark_cached(0);
        }
        let mut name = to_owned_string("layer_");
        name.append(self.config.name.as_str());
        proof {
            reveal_strlit("layer_");
        }
        LayerSession { name, model: self.effective_model(session_model), log }
    }
}

} // verus!
