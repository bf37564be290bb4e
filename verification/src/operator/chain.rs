//! Processing chains, and the routes from a topic filter (and optionally a client)
//! to them.
use vstd::prelude::*;
use vstd::std_specs::cmp::PartialEqSpecImpl;

use super::command::OperatorCommand;
use super::trie::ClientId;
use crate::processor::message::Message;
use crate::topic::{opt_chars, opt_str_eq, str_eq, string_views};

verus! {

/// A processing chain: its name, the identifiers of its processors in order, and
/// whether what comes out of it is delivered to subscribers.
pub struct ProcessorChain {
    pub name: String,
    pub processors: Vec<String>,
    pub delivery: bool,
}

/// A processing chain as plain values.
pub struct ProcessorChainView {
    pub name: Seq<char>,
    pub processors: Seq<Seq<char>>,
    pub delivery: bool,
}

impl View for ProcessorChain {
    type V = ProcessorChainView;

    open spec fn view(&self) -> ProcessorChainView {
        ProcessorChainView {
            name: self.name@,
            processors: string_views(self.processors@),
            delivery: self.delivery,
        }
    }
}

/// A copy of a list of strings.
pub fn clone_strings(v: &Vec<String>) -> (r: Vec<String>)
    ensures
        string_views(r@) == string_views(v@),
{
    let mut out: Vec<String> = Vec::new();
    let mut i: usize = 0;
    while i < v.len()
        invariant
            i <= v@.len(),
            out@.len() == i,
            forall|k: int| 0 <= k < i ==> (#[trigger] out@[k])@ == v@[k]@,
        decreases v@.len() - i,
    {
        out.push(v[i].clone());
        i = i + 1;
    }
    assert(string_views(out@) =~= string_views(v@));
    out
}

impl Clone for ProcessorChain {
    fn clone(&self) -> (r: Self)
        ensures
            r@ == self@,
    {
        ProcessorChain {
            name: self.name.clone(),
            processors: clone_strings(&self.processors),
            delivery: self.delivery,
        }
    }
}

impl ProcessorChain {
    /// What comes of running a message through this chain, `out` being what its last
    /// processor gave (none when a processor dropped the message): a chain that
    /// delivers publishes it as it came out; another publishes nothing.
    pub fn output(&self, out: Option<Message>) -> (r: Option<OperatorCommand>)
        ensures
            r == chain_output(self.delivery, out),
    {
        match out {
            Some(m) => if self.delivery {
                Some(
                    OperatorCommand::Publish {
                        client_id: m.client_id,
                        retain: m.retain,
                        qos: m.qos,
                        topic: m.topic,
                        payload: m.payload,
                        user_properties: m.user_properties,
                        options: m.options,
                    },
                )
            } else {
                None
            },
            None => None,
        }
    }
}

/// What a chain that delivers (when `delivery` holds) publishes of `out`, what its
/// last processor gave: the message as it came out; a chain that does not deliver,
/// or a dropped message, publishes nothing.
pub open spec fn chain_output(delivery: bool, out: Option<Message>) -> Option<OperatorCommand> {
    match out {
        Some(m) => if delivery {
            Some(
                OperatorCommand::Publish {
                    client_id: m.client_id,
                    retain: m.retain,
                    qos: m.qos,
                    topic: m.topic,
                    payload: m.payload,
                    user_properties: m.user_properties,
                    options: m.options,
                },
            )
        } else {
            None
        },
        None => None,
    }
}

/// The next thing to do while running a message through a chain.
pub enum ChainStep {
    /// hand `message` to the processor named `processor`
    Run { processor: String, message: Message },
    /// the chain is done: publish what it gives, if anything
    Finish(Option<OperatorCommand>),
}

impl ProcessorChain {
    /// The next step of running a message through this chain once its first `done`
    /// processors have run, `msg` being what they gave (none when one of them dropped
    /// the message): a dropped message ends the run with nothing published; a
    /// message that has passed every processor ends it with what `output` gives;
    /// otherwise the message goes to the next processor.
    pub fn next_step(&self, done: usize, msg: Option<Message>) -> (r: ChainStep)
        ensures
            match msg {
                None => r == ChainStep::Finish(None),
                Some(m) => if done >= self.processors@.len() {
                    r == ChainStep::Finish(chain_output(self.delivery, Some(m)))
                } else {
                    r matches ChainStep::Run { processor, message } && processor@
                        == self.processors@[done as int]@ && message == m
                },
            },
    {
        match msg {
            None => ChainStep::Finish(None),
            Some(m) => if done >= self.processors.len() {
                ChainStep::Finish(self.output(Some(m)))
            } else {
                ChainStep::Run { processor: self.processors[done].clone(), message: m }
            },
        }
    }
}

/// Messages on `topic_filter`, from `client_id` when it is given, go through the
/// processing chains named in `chains`.
pub struct Chain {
    pub topic_filter: String,
    pub client_id: Option<String>,
    pub chains: Vec<String>,
}

/// A route as plain values.
pub struct ChainView {
    pub topic_filter: Seq<char>,
    pub client_id: Option<Seq<char>>,
    pub chains: Seq<Seq<char>>,
}

impl View for Chain {
    type V = ChainView;

    open spec fn view(&self) -> ChainView {
        ChainView {
            topic_filter: self.topic_filter@,
            client_id: opt_chars(self.client_id),
            chains: string_views(self.chains@),
        }
    }
}

impl Clone for Chain {
    fn clone(&self) -> (r: Self)
        ensures
            r@ == self@,
    {
        Chain {
            topic_filter: self.topic_filter.clone(),
            client_id: match &self.client_id {
                Some(c) => Some(c.clone()),
                None => None,
            },
            chains: clone_strings(&self.chains),
        }
    }
}

impl ClientId for Chain {
    /// A route is filed under its topic filter.
    open spec fn spec_client_id(&self) -> Seq<char> {
        self.topic_filter@
    }

    fn client_id(&self) -> (r: &str) {
        self.topic_filter.as_str()
    }
}

impl PartialEq for Chain {
    fn eq(&self, other: &Self) -> (r: bool) {
        opt_str_eq(&self.client_id, &other.client_id) && str_eq(
            self.topic_filter.as_str(),
            other.topic_filter.as_str(),
        )
    }
}

impl PartialEqSpecImpl for Chain {
    open spec fn obeys_eq_spec() -> bool {
        true
    }

    open spec fn eq_spec(&self, other: &Self) -> bool {
        opt_chars(self.client_id) == opt_chars(other.client_id) && self.topic_filter@
            == other.topic_filter@
    }
}

} // verus!
