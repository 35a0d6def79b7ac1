//! Subagent delegation depth, capabilities and the provider table that
//! decides which provider runs a one-shot child.

use vstd::prelude::*;
use vstd::string::StringExecFns;
use crate::num::{decimal, push_u64};
use crate::text::push_str;
use crate::time_context::ConfigShape;
use crate::skill_file::{find_unknown_key, first_unknown, key_views};

verus! {

/// Default absolute depth cap when a start request omits `max_depth`.
pub const DEFAULT_SUBAGENT_MAX_DEPTH: u32 = 3;

/// Lifecycle event emitted when a child run starts.
pub const EVENT_SUBAGENT_START: &'static str = "subagent/start";

/// Lifecycle event emitted when a child run ends.
pub const EVENT_SUBAGENT_END: &'static str = "subagent/end";

/// Tag of subagent run ids.
pub struct SubagentRunIdTag;

/// Optional request features a provider supports.
#[derive(Clone, Copy, Debug, Eq, PartialEq)]
pub struct SubagentCapabilities {
    /// Structured output schemas.
    pub output_schema: bool,
    /// Delegation depth limits.
    pub depth_limit: bool,
    /// Child tool filtering.
    pub tool_filter: bool,
    /// Persona selection.
    pub persona: bool,
}

impl SubagentCapabilities {
    /// Every capability enabled.
    pub fn all() -> (r: Self)
        ensures
            r.output_schema && r.depth_limit && r.tool_filter && r.persona,
    {
        SubagentCapabilities { output_schema: true, depth_limit: true, tool_filter: true, persona: true }
    }
}

/// Why a one-shot child stopped.
#[derive(Clone, Copy, Debug, Eq, PartialEq)]
pub enum SubagentStopReason {
    /// The child completed its turn.
    Completed,
    /// The run was aborted.
    Aborted,
    /// The run failed.
    Error,
    /// The model stopped at its token limit.
    MaxTokens,
    /// The model refused.
    Refusal,
}

/// Subagent registry, capability and depth failures.
#[derive(Debug)]
pub enum SubagentError {
    /// No provider is registered under this name.
    UnknownProvider(String),
    /// A provider with this name is already registered.
    DuplicateProvider(String),
    /// The provider lacks a capability the request needs.
    UnsupportedCapability(String, String),
    /// The child depth exceeds the cap: child depth, then cap.
    Depth(u64, u32),
    /// Any other failure.
    Other(String),
}

impl SubagentError {
    /// A failure with a free-form message.
    pub fn other(message: &str) -> (r: Self)
        ensures
            r matches SubagentError::Other(m) && m@ == message@,
    {
        SubagentError::Other(String::from_str(message))
    }

    /// The failure message.
    pub open spec fn message(&self) -> Seq<char> {
        match self {
            SubagentError::UnknownProvider(n) => "unknown subagent provider `"@ + n@ + "`"@,
            SubagentError::DuplicateProvider(n) => "a subagent provider named \""@ + n@ + "\" is already registered"@,
            SubagentError::UnsupportedCapability(n, c) => "subagent provider `"@ + n@ + "` does not support "@ + c@,
            SubagentError::Depth(d, m) => "subagent depth "@ + decimal(*d as nat) + " exceeds maxDepth "@ + decimal(*m as nat),
            SubagentError::Other(m) => m@,
        }
    }

    /// The failure message.
    pub fn to_string(&self) -> (r: String)
        ensures
            r@ == self.message(),
    {
        let mut s = String::new();
        match self {
            SubagentError::UnknownProvider(n) => {
                push_str(&mut s, "unknown subagent provider `");
                push_str(&mut s, n.as_str());
                push_str(&mut s, "`");
            },
            SubagentError::DuplicateProvider(n) => {
                push_str(&mut s, "a subagent provider named \"");
                push_str(&mut s, n.as_str());
                push_str(&mut s, "\" is already registered");
            },
            SubagentError::UnsupportedCapability(n, c) => {
                push_str(&mut s, "subagent provider `");
                push_str(&mut s, n.as_str());
                push_str(&mut s, "` does not support ");
                push_str(&mut s, c.as_str());
            },
            SubagentError::Depth(d, m) => {
                push_str(&mut s, "subagent depth ");
                push_u64(&mut s, *d);
                push_str(&mut s, " exceeds maxDepth ");
                push_u64(&mut s, *m as u64);
            },
            SubagentError::Other(m) => {
                push_str(&mut s, m.as_str());
            },
        }
        s
    }
}

/// The child's depth, parent depth plus one (saturating), when it is within
/// the cap (`max_depth`, default [`DEFAULT_SUBAGENT_MAX_DEPTH`]).
pub fn assert_subagent_max_depth(parent_depth: u64, max_depth: Option<u32>) -> (r: Result<u64, SubagentError>)
    ensures
        ({
            let max: u32 = match max_depth { Some(m) => m, None => DEFAULT_SUBAGENT_MAX_DEPTH };
            let child: u64 = if parent_depth < u64::MAX { (parent_depth + 1) as u64 } else { parent_depth };
            &&& child <= max ==> r == Ok::<u64, SubagentError>(child)
            &&& child > max ==> (r matches Err(SubagentError::Depth(d, m)) && d == child && m == max)
        }),
{
    let max: u32 = match max_depth {
        Some(m) => m,
        None => DEFAULT_SUBAGENT_MAX_DEPTH,
    };
    let child_depth: u64 = if parent_depth < u64::MAX { parent_depth + 1 } else { parent_depth };
    if child_depth > max as u64 {
        return Err(SubagentError::Depth(child_depth, max));
    }
    Ok(child_depth)
}

/// Registered provider names with their capabilities, in registration order.
pub struct SubagentProviderTable {
    providers: Vec<(String, SubagentCapabilities)>,
}

impl SubagentProviderTable {
    /// Names and capabilities.
    pub closed spec fn view(&self) -> Seq<(Seq<char>, SubagentCapabilities)> {
        Seq::new(self.providers@.len(), |i: int| (self.providers@[i].0@, self.providers@[i].1))
    }

    /// An empty table.
    pub fn new() -> (r: Self)
        ensures
            r.view().len() == 0,
    {
        SubagentProviderTable { providers: Vec::new() }
    }

    fn index_of(&self, name: &str) -> (r: Option<usize>)
        ensures
            match r {
                Some(k) => k < self.view().len() && self.view()[k as int].0 == name@,
                None => forall|k: int| 0 <= k < self.view().len() ==> #[trigger] self.view()[k].0 != name@,
            },
    {
        let n = String::from_str(name);
        let mut i: usize = 0;
        while i < self.providers.len()
            invariant
                0 <= i <= self.providers.len(),
                n@ == name@,
                forall|k: int| 0 <= k < i ==> #[trigger] self.view()[k].0 != name@,
            decreases self.providers.len() - i,
        {
            if self.providers[i].0 == n {
                return Some(i);
            }
            i = i + 1;
        }
        None
    }

    /// Register a provider: its name must be non-empty and new.
    pub fn register(&mut self, name: &str, capabilities: SubagentCapabilities) -> (r: Result<(), SubagentError>)
        ensures
            name@.len() == 0 ==> (r matches Err(SubagentError::Other(m)) && m@ == "subagent provider name must be non-empty"@)
                && final(self).view() == old(self).view(),
            name@.len() > 0 && (exists|k: int| 0 <= k < old(self).view().len() && #[trigger] old(self).view()[k].0 == name@) ==>
                (r matches Err(SubagentError::DuplicateProvider(n)) && n@ == name@) && final(self).view() == old(self).view(),
            name@.len() > 0 && !(exists|k: int| 0 <= k < old(self).view().len() && #[trigger] old(self).view()[k].0 == name@) ==>
                r is Ok && final(self).view() == old(self).view().push((name@, capabilities)),
    {
        if name.unicode_len() == 0 {
            return Err(SubagentError::other("subagent provider name must be non-empty"));
        }
        match self.index_of(name) {
            Some(_) => Err(SubagentError::DuplicateProvider(String::from_str(name))),
            None => {
                let ghost before = self.view();
                self.providers.push((String::from_str(name), capabilities));
                assert(self.view() =~= before.push((name@, capabilities)));
                Ok(())
            },
        }
    }

    /// The provider that runs a start request: it must be registered, and a
    /// request with a depth limit needs the `depthLimit` capability.
    pub fn select(&self, provider: &str, has_max_depth: bool) -> (r: Result<usize, SubagentError>)
        ensures
            match r {
                Ok(k) => k < self.view().len() && self.view()[k as int].0 == provider@
                    && (has_max_depth ==> self.view()[k as int].1.depth_limit),
                Err(SubagentError::UnknownProvider(n)) => n@ == provider@
                    && forall|k: int| 0 <= k < self.view().len() ==> #[trigger] self.view()[k].0 != provider@,
                Err(SubagentError::UnsupportedCapability(n, c)) => n@ == provider@ && c@ == "depthLimit"@ && has_max_depth
                    && exists|k: int| 0 <= k < self.view().len() && #[trigger] self.view()[k].0 == provider@
                        && !self.view()[k].1.depth_limit,
                Err(_) => false,
            },
    {
        match self.index_of(provider) {
            None => Err(SubagentError::UnknownProvider(String::from_str(provider))),
            Some(k) => {
                if has_max_depth && !self.providers[k].1.depth_limit {
                    assert(self.view()[k as int].0 == provider@);
                    Err(SubagentError::UnsupportedCapability(String::from_str(provider), String::from_str("depthLimit")))
                } else {
                    Ok(k)
                }
            },
        }
    }
}

/// Persisted delegation depth of a session header's `delegation_depth`
/// field; an absent depth is the top level, zero.
pub fn delegation_depth_of(delegation_depth: Option<u64>) -> (r: u64)
    ensures
        r == match delegation_depth {
            Some(d) => d,
            None => 0,
        },
{
    match delegation_depth {
        Some(d) => d,
        None => 0,
    }
}

/// The `providerName` setting of an in-process provider plugin, as read from
/// its configuration object.
#[derive(Debug)]
pub enum ProviderNameSetting {
    /// The key is absent or `null`.
    Absent,
    /// A JSON string.
    Text(String),
    /// Any other JSON value.
    Other,
}

/// `"{subject}: unknown key \"{key}\""`.
pub open spec fn unknown_key_message(subject: Seq<char>, key: Seq<char>) -> Seq<char> {
    subject + ": unknown key \""@ + key + "\""@
}

/// `"{subject}: config must be an object"`.
pub open spec fn not_object_message(subject: Seq<char>) -> Seq<char> {
    subject + ": config must be an object"@
}

/// The configuration check of a plugin that accepts only the keys `allowed`:
/// `null` passes, an object fails on its first unknown key, anything else fails.
pub open spec fn config_keys_spec(shape: ConfigShape, keys: Seq<Seq<char>>, allowed: Seq<Seq<char>>, subject: Seq<char>) -> Result<(), Seq<char>> {
    match shape {
        ConfigShape::Null => Ok(()),
        ConfigShape::Object => match first_unknown(keys, allowed) {
            Some(i) => Err(unknown_key_message(subject, keys[i])),
            None => Ok(()),
        },
        ConfigShape::Other => Err(not_object_message(subject)),
    }
}

fn unknown_key_error(subject: &str, key: &str) -> (r: String)
    ensures
        r@ == unknown_key_message(subject@, key@),
{
    let mut m = String::new();
    push_str(&mut m, subject);
    push_str(&mut m, ": unknown key \"");
    push_str(&mut m, key);
    push_str(&mut m, "\"");
    m
}

fn not_object_error(subject: &str) -> (r: String)
    ensures
        r@ == not_object_message(subject@),
{
    let mut m = String::new();
    push_str(&mut m, subject);
    push_str(&mut m, ": config must be an object");
    m
}

/// Check a plugin configuration whose object may hold only `allowed` keys.
pub fn reject_unknown_config_keys(shape: ConfigShape, keys: &[String], allowed: &Vec<&str>, subject: &str) -> (r: Result<(), String>)
    ensures
        match r {
            Ok(()) => config_keys_spec(shape, key_views(keys@), allowed@.map_values(|a: &str| a@), subject@) is Ok,
            Err(m) => config_keys_spec(shape, key_views(keys@), allowed@.map_values(|a: &str| a@), subject@) == Err::<(), Seq<char>>(m@),
        },
{
    match shape {
        ConfigShape::Null => Ok(()),
        ConfigShape::Object => match find_unknown_key(keys, allowed) {
            Some(i) => Err(unknown_key_error(subject, keys[i].as_str())),
            None => Ok(()),
        },
        ConfigShape::Other => Err(not_object_error(subject)),
    }
}

/// The provider name an in-process provider plugin registers under: the
/// default for `null` or an absent setting, else the configured non-empty string.
pub open spec fn provider_name_spec(shape: ConfigShape, keys: Seq<Seq<char>>, setting: ProviderNameSetting, default: Seq<char>, subject: Seq<char>) -> Result<Seq<char>, Seq<char>> {
    match shape {
        ConfigShape::Null => Ok(default),
        ConfigShape::Object => match first_unknown(keys, seq!["providerName"@]) {
            Some(i) => Err(unknown_key_message(subject, keys[i])),
            None => match setting {
                ProviderNameSetting::Absent => Ok(default),
                ProviderNameSetting::Text(t) => if t@.len() == 0 {
                    Err(subject + ".providerName must be non-empty"@)
                } else {
                    Ok(t@)
                },
                ProviderNameSetting::Other => Err(subject + ".providerName must be a string"@),
            },
        },
        ConfigShape::Other => Err(not_object_message(subject)),
    }
}

/// Resolve the provider name of an in-process provider plugin from its
/// configuration: `keys` are the object's keys, `setting` its `providerName`.
pub fn resolve_provider_name(shape: ConfigShape, keys: &[String], setting: &ProviderNameSetting, default: &str, subject: &str) -> (r: Result<String, String>)
    ensures
        match r {
            Ok(n) => provider_name_spec(shape, key_views(keys@), *setting, default@, subject@) == Ok::<Seq<char>, Seq<char>>(n@),
            Err(m) => provider_name_spec(shape, key_views(keys@), *setting, default@, subject@) == Err::<Seq<char>, Seq<char>>(m@),
        },
{
    let allowed: Vec<&str> = vec!["providerName"];
    proof {
        reveal_strlit("providerName");
        assert(allowed@.map_values(|a: &str| a@) =~= seq!["providerName"@]);
    }
    match shape {
        ConfigShape::Null => Ok(String::from_str(default)),
        ConfigShape::Object => match find_unknown_key(keys, &allowed) {
            Some(i) => Err(unknown_key_error(subject, keys[i].as_str())),
            None => match setting {
                ProviderNameSetting::Absent => Ok(String::from_str(default)),
                ProviderNameSetting::Text(t) => if t.as_str().unicode_len() == 0 {
                    let mut m = String::new();
                    push_str(&mut m, subject);
                    push_str(&mut m, ".providerName must be non-empty");
                    Err(m)
                } else {
                    Ok(t.clone())
                },
                ProviderNameSetting::Other => {
                    let mut m = String::new();
                    push_str(&mut m, subject);
                    push_str(&mut m, ".providerName must be a string");
                    Err(m)
                },
            },
        },
        ConfigShape::Other => Err(not_object_error(subject)),
    }
}

} // verus!
