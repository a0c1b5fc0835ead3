//! Request handling rules of the internal service (serving the kiosk front
//! end) and the external service (taking commands from outside).

use vstd::prelude::*;
use std::collections::HashSet;
use crate::commands::Command;
use crate::config::InitializationParameters;
use crate::text::{chars_of, same_text};
use std::borrow::Cow;

verus! {

broadcast use vstd::std_specs::hash::group_hash_axioms;

/// The internal service that serves the static front-end files.
pub struct InternalHTTPService {
    pub internal_service_static_directory: String,
}

impl InternalHTTPService {
    /// A service serving files from the configured front-end directory.
    pub fn new(initialization_parameters: &InitializationParameters) -> (service: InternalHTTPService)
        ensures
            service.internal_service_static_directory@
                == initialization_parameters.internal_service_static_directory@,
    {
        InternalHTTPService {
            internal_service_static_directory: initialization_parameters.internal_service_static_directory.clone(),
        }
    }
}

/// Requests whose path starts with this are served from the configuration
/// directory.
pub open spec fn config_prefix() -> Seq<char> {
    seq!['/', 'c', 'o', 'n', 'f', 'i', 'g']
}

/// Where a file request of the internal service is served from.
#[derive(PartialEq, Eq, Debug, Clone)]
pub enum StaticRoute {
    /// From the configuration directory, at this path inside it.
    Config(String),
    /// From the front-end directory, at this path inside it.
    Base(String),
}

/// The directory and inner path for a requested path: paths under
/// `/config` come from the configuration directory with the prefix cut
/// off, all others from the front-end directory unchanged.
pub open spec fn static_route(path: Seq<char>) -> (bool, Seq<char>) {
    if path.len() >= config_prefix().len() && path.take(config_prefix().len() as int) == config_prefix() {
        (true, path.skip(config_prefix().len() as int))
    } else {
        (false, path)
    }
}

/// A path that starts with `/config` is served from the configuration
/// directory at what follows the prefix; any other path is served from the
/// front-end directory as it is.
pub proof fn lemma_static_route(rest: Seq<char>, path: Seq<char>)
    ensures
        static_route("/config"@ + rest) == (true, rest),
        !(path.len() >= 7 && path.take(7) == "/config"@) ==> static_route(path) == (false, path),
{
    reveal_strlit("/config");
    assert(config_prefix() =~= "/config"@);
    assert(("/config"@ + rest).take(7) =~= "/config"@);
    assert(("/config"@ + rest).skip(7) =~= rest);
}

/// Decides where a file request of the internal service is served from.
pub fn route_static_get(path: &str) -> (route: StaticRoute)
    ensures
        match route {
            StaticRoute::Config(p) => static_route(path@) == (true, p@),
            StaticRoute::Base(p) => static_route(path@) == (false, p@),
        },
{
    let chars = chars_of(path);
    let prefix = ['/', 'c', 'o', 'n', 'f', 'i', 'g'];
    let mut is_config = chars.len() >= 7;
    let mut i: usize = 0;
    while i < 7 && is_config
        invariant
            chars@ == path@,
            i <= 7,
            prefix@ == config_prefix(),
            is_config == (chars@.len() >= 7 && forall|j: int| 0 <= j < i ==> chars@[j] == prefix@[j]),
        decreases 7 - i,
    {
        if chars[i] != prefix[i] {
            is_config = false;
        }
        i = i + 1;
    }
    if is_config {
        assert(path@.take(7) =~= config_prefix());
        StaticRoute::Config(path.substring_char(7, chars.len()).to_owned())
    } else {
        proof {
            if path@.len() >= 7 && path@.take(7) == config_prefix() {
                assert(forall|j: int| 0 <= j < 7 ==> chars@[j] == path@.take(7)[j]);
            }
        }
        StaticRoute::Base(path.to_owned())
    }
}

/// The command the front end receives first on a new connection: the key
/// of the photo service.
pub fn initial_front_end_command(photoprism_key: &String) -> (command: Command)
    ensures
        command == Command::PhotoprismKey(*photoprism_key),
{
    Command::PhotoprismKey(photoprism_key.clone())
}

/// Keeps track of the connected front ends (by key) and of whether the task
/// that forwards commands to them is running.
pub struct SinkRegistry {
    keys: HashSet<u64>,
    handler_running: bool,
}

/// A finite set of keys that holds every key below `n` has at least `n`
/// elements.
proof fn lemma_keys_below(s: Set<u64>, n: nat)
    requires
        s.finite(),
        n <= u64::MAX + 1,
        forall|j: u64| j < n ==> s.contains(j),
    ensures
        s.len() >= n,
    decreases n,
{
    if n > 0 {
        let last = (n - 1) as u64;
        let smaller = s.remove(last);
        assert forall|j: u64| j < n - 1 implies smaller.contains(j) by {
            assert(s.contains(j));
        }
        lemma_keys_below(smaller, (n - 1) as nat);
        assert(s.contains(last));
    }
}

impl SinkRegistry {
    /// The keys of the connected front ends.
    pub closed spec fn keys(&self) -> Set<u64> {
        self.keys@
    }

    /// Whether the forwarding task is running.
    pub closed spec fn handler_running(&self) -> bool {
        self.handler_running
    }

    /// The registry's invariant: it holds finitely many keys.
    pub closed spec fn wf(&self) -> bool {
        self.keys@.finite()
    }

    /// A registry with no front end and no forwarding task.
    pub fn new() -> (registry: SinkRegistry)
        ensures
            registry.wf(),
            registry.keys() == Set::<u64>::empty(),
            !registry.handler_running(),
    {
        SinkRegistry { keys: HashSet::new(), handler_running: false }
    }

    /// The number of connected front ends.
    pub fn len(&self) -> (n: usize)
        requires
            self.wf(),
        ensures
            n == self.keys().len(),
    {
        self.keys.len()
    }

    /// Registers a new front end under the smallest key not in use, and
    /// says whether the forwarding task has to be started (it is marked as
    /// running from then on).
    pub fn register(&mut self) -> (result: (u64, bool))
        requires
            old(self).wf(),
        ensures
            final(self).wf(),
            !old(self).keys().contains(result.0),
            forall|j: u64| j < result.0 ==> old(self).keys().contains(j),
            final(self).keys() == old(self).keys().insert(result.0),
            result.1 == !old(self).handler_running(),
            final(self).handler_running(),
    {
        let mut key: u64 = 0;
        while self.keys.contains(&key)
            invariant
                self.keys@ == old(self).keys@,
                self.handler_running == old(self).handler_running,
                self.keys@.finite(),
                forall|j: u64| j < key ==> self.keys@.contains(j),
            decreases u64::MAX - key,
        {
            proof {
                assert forall|j: u64| j < key + 1 implies self.keys@.contains(j) by {}
                lemma_keys_below(self.keys@, (key + 1) as nat);
                assert(vstd::std_specs::hash::spec_hash_set_len(&self.keys) == self.keys@.len());
            }
            key = key + 1;
        }
        self.keys.insert(key);
        let start_handler = !self.handler_running;
        self.handler_running = true;
        (key, start_handler)
    }

    /// Removes a front end, and says whether the forwarding task has to be
    /// stopped because no front end is left. Either way the task counts as
    /// not running afterwards.
    pub fn unregister(&mut self, key: u64) -> (stop_handler: bool)
        requires
            old(self).wf(),
        ensures
            final(self).wf(),
            final(self).keys() == old(self).keys().remove(key),
            stop_handler == (old(self).handler_running() && final(self).keys().len() == 0),
            !final(self).handler_running(),
    {
        self.keys.remove(&key);
        let stop = self.keys.len() == 0 && self.handler_running;
        self.handler_running = false;
        stop
    }
}

/// Removing a front end undoes registering it: the registry is left with
/// the keys it had before, and the next registration hands out the same
/// key again.
pub proof fn lemma_register_unregister(before: SinkRegistry, registered: SinkRegistry, after: SinkRegistry, key: u64)
    requires
        !before.keys().contains(key),
        forall|j: u64| j < key ==> before.keys().contains(j),
        registered.keys() == before.keys().insert(key),
        after.keys() == registered.keys().remove(key),
    ensures
        after.keys() == before.keys(),
        !after.keys().contains(key),
        forall|j: u64| j < key ==> after.keys().contains(j),
{
    assert(after.keys() =~= before.keys());
}


/// The name/value pairs of an `application/x-www-form-urlencoded` body as
/// `form_urlencoded::parse` yields them, in order: whether the name came
/// back borrowed from the body unchanged (no decoding was needed), the
/// decoded name, and the decoded value.
pub uninterp spec fn form_pairs(body: Seq<u8>) -> Seq<(bool, Seq<char>, Seq<char>)>;

/// Calls `form_urlencoded::parse` and copies each pair out, noting whether
/// the name was borrowed from the body. The contract claims only that the
/// result is `form_pairs` of the body: the percent-decoding and the
/// replacement of invalid UTF-8 that the crate performs are not restated.
#[verifier::external_body]
fn parse_form(body: &[u8]) -> (pairs: Vec<(bool, String, String)>)
    ensures
        pairs@.map_values(|p: (bool, String, String)| (p.0, p.1@, p.2@)) == form_pairs(body@),
{
    let mut pairs = Vec::new();
    for (name, value) in form_urlencoded::parse(body) {
        let borrowed = match &name {
            Cow::Borrowed(_) => true,
            Cow::Owned(_) => false,
        };
        pairs.push((borrowed, name.into_owned(), value.into_owned()));
    }
    pairs
}

/// The values of the pairs named `message`, in order. A name only counts
/// when it stood in the body literally, without any decoding.
pub open spec fn message_values(pairs: Seq<(bool, Seq<char>, Seq<char>)>) -> Seq<Seq<char>>
    decreases pairs.len(),
{
    if pairs.len() == 0 {
        Seq::empty()
    } else {
        let last = pairs.last();
        let front = message_values(pairs.drop_last());
        if last.0 && last.1 == "message"@ {
            front.push(last.2)
        } else {
            front
        }
    }
}

/// Each pair named literally `message` contributes its decoded value,
/// whole and unchanged, after the values of the pairs before it; any other
/// pair (another name, or a name that needed decoding) contributes
/// nothing. Values of two runs of pairs follow one another.
pub proof fn lemma_message_values(
    pairs: Seq<(bool, Seq<char>, Seq<char>)>,
    more: Seq<(bool, Seq<char>, Seq<char>)>,
    value: Seq<char>,
    other: (bool, Seq<char>, Seq<char>),
)
    requires
        !(other.0 && other.1 == "message"@),
    ensures
        message_values(seq![(true, "message"@, value)]) == seq![value],
        message_values(pairs.push((true, "message"@, value))) == message_values(pairs).push(value),
        message_values(pairs.push(other)) == message_values(pairs),
        message_values(Seq::empty()) == Seq::<Seq<char>>::empty(),
        message_values(pairs + more) == message_values(pairs) + message_values(more),
    decreases more.len(),
{
    assert(seq![(true, "message"@, value)].drop_last() =~= Seq::<(bool, Seq<char>, Seq<char>)>::empty());
    assert(message_values(Seq::<(bool, Seq<char>, Seq<char>)>::empty()) == Seq::<Seq<char>>::empty());
    assert(seq![(true, "message"@, value)].last() == (true, "message"@, value));
    assert(Seq::<Seq<char>>::empty().push(value) =~= seq![value]);
    assert(pairs.push((true, "message"@, value)).drop_last() =~= pairs);
    assert(pairs.push(other).drop_last() =~= pairs);
    if more.len() == 0 {
        assert(pairs + more =~= pairs);
        assert(message_values(pairs) + message_values(more) =~= message_values(pairs));
    } else {
        lemma_message_values(pairs, more.drop_last(), value, other);
        assert((pairs + more).drop_last() =~= pairs + more.drop_last());
        assert((pairs + more).last() == more.last());
        let last = more.last();
        if last.0 && last.1 == "message"@ {
            assert(message_values(pairs) + message_values(more.drop_last()).push(last.2)
                =~= (message_values(pairs) + message_values(more.drop_last())).push(last.2));
        }
    }
}

/// The commands, still as JSON text, that a form body posted to the
/// external service carries, in the order they are to be handled.
pub fn form_messages(body: &[u8]) -> (messages: Vec<String>)
    ensures
        messages@.map_values(|m: String| m@) == message_values(form_pairs(body@)),
{
    let pairs = parse_form(body);
    let ghost views = pairs@.map_values(|p: (bool, String, String)| (p.0, p.1@, p.2@));
    let mut messages: Vec<String> = Vec::new();
    let mut i: usize = 0;
    while i < pairs.len()
        invariant
            i <= pairs@.len(),
            views == pairs@.map_values(|p: (bool, String, String)| (p.0, p.1@, p.2@)),
            messages@.map_values(|m: String| m@) == message_values(views.take(i as int)),
        decreases pairs@.len() - i,
    {
        assert(views.take(i + 1).drop_last() =~= views.take(i as int));
        let ghost before = messages@.map_values(|m: String| m@);
        let (borrowed, name, value) = &pairs[i];
        if *borrowed && same_text(name.as_str(), "message") {
            messages.push(value.clone());
            assert(messages@.map_values(|m: String| m@) =~= before.push(value@));
        }
        i = i + 1;
    }
    assert(views.take(i as int) =~= views);
    messages
}

/// What the external service does with a command it received.
#[derive(PartialEq, Eq, Structural, Debug, Clone, Copy)]
pub enum ExternalCommandRoute {
    /// Pass it on to the front end unchanged.
    ForwardToFrontEnd,
    /// Switch the screen on (`true`) or off (`false`) on the device.
    SetScreen(bool),
    /// Refuse it: outside callers may not send it.
    Refuse,
}

/// How a command received from outside is handled: opening a page goes to
/// the front end, screen changes are carried out on the device, and the
/// photo key and voice-control state are refused.
pub open spec fn external_route(command: Command) -> ExternalCommandRoute {
    match command {
        Command::AutoTab(_) => ExternalCommandRoute::ForwardToFrontEnd,
        Command::SetScreenState(on) => ExternalCommandRoute::SetScreen(on),
        Command::PhotoprismKey(_) => ExternalCommandRoute::Refuse,
        Command::SetVoiceControlState(_) => ExternalCommandRoute::Refuse,
    }
}

/// A screen command from outside switches the screen to exactly the state
/// it asks for; a page to open goes to the front end; the photo key and
/// the voice-control state are never accepted from outside.
pub proof fn lemma_external_routes(b: bool, page: String, key: String, v: crate::commands::VoiceControlState)
    ensures
        external_route(Command::SetScreenState(b)) == ExternalCommandRoute::SetScreen(b),
        external_route(Command::SetScreenState(b)) != ExternalCommandRoute::SetScreen(!b),
        external_route(Command::AutoTab(page)) == ExternalCommandRoute::ForwardToFrontEnd,
        external_route(Command::PhotoprismKey(key)) == ExternalCommandRoute::Refuse,
        external_route(Command::SetVoiceControlState(v)) == ExternalCommandRoute::Refuse,
{
}

/// Decides how a command received from outside is handled.
pub fn route_external_command(command: &Command) -> (route: ExternalCommandRoute)
    ensures
        route == external_route(*command),
{
    match command {
        Command::AutoTab(_) => ExternalCommandRoute::ForwardToFrontEnd,
        Command::SetScreenState(on) => ExternalCommandRoute::SetScreen(*on),
        Command::PhotoprismKey(_) => ExternalCommandRoute::Refuse,
        Command::SetVoiceControlState(_) => ExternalCommandRoute::Refuse,
    }
}

/// The HTTP methods the services tell apart.
#[derive(PartialEq, Eq, Structural, Debug, Clone, Copy)]
pub enum RequestMethod {
    Get,
    Post,
    Other,
}

/// What a service does with a request, by its method.
#[derive(PartialEq, Eq, Structural, Debug, Clone, Copy)]
pub enum MethodDecision {
    /// Read the posted body and act on it.
    HandlePost,
    /// Answer the read request.
    HandleGet,
    /// Answer with "bad request".
    BadRequest,
}

/// Both services act on `POST` and `GET` and answer every other method
/// with "bad request".
pub fn decide_method(method: RequestMethod) -> (decision: MethodDecision)
    ensures
        decision == match method {
            RequestMethod::Post => MethodDecision::HandlePost,
            RequestMethod::Get => MethodDecision::HandleGet,
            RequestMethod::Other => MethodDecision::BadRequest,
        },
{
    match method {
        RequestMethod::Post => MethodDecision::HandlePost,
        RequestMethod::Get => MethodDecision::HandleGet,
        RequestMethod::Other => MethodDecision::BadRequest,
    }
}

} // verus!
