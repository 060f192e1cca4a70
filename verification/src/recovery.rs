//! The recovery of the connection to a broker that was lost or replaced.

use vstd::prelude::*;
use vstd::string::*;
use crate::json::{json_get, json_get_text, json_parsed, parse_json, Json, JsonView};
use crate::path::{parts, same_path, FsPath};
use crate::text::{decimal, push_decimal, text_eq, text_join};
use crate::wire::{http_status_text, status_text};

verus! {

/// The most bytes that the reply to a registration may have.
pub const MAX_RECOVERY_RESPONSE_BYTES: usize = 1_048_576;

/// How long a launch of the broker may take where there is no deadline, in
/// microseconds.
pub const RECOVERY_LAUNCH_TIMEOUT_US: u64 = 10_000_000;

/// The header with the registration.
pub const REGISTRATION_HEADER: &'static str = "x-herdr-a2a-registration";

/// The header with the epoch of the registration.
pub const REGISTRATION_EPOCH_HEADER: &'static str = "x-herdr-a2a-registration-epoch";

/// How long a call of the lifecycle may take to connect, in milliseconds.
pub const LIFECYCLE_CONNECT_TIMEOUT_MS: u64 = 500;

/// How long a call of the lifecycle may take, in milliseconds.
pub const LIFECYCLE_REQUEST_TIMEOUT_MS: u64 = 2_000;

/// Until when a task is waited for.
#[derive(Clone, Copy, Debug, PartialEq, Eq, Structural)]
pub enum TaskWaitMode {
    Immediate,
    Terminal,
}

/// What is to be recovered: the broker, or only the registration with it.
#[derive(Clone, Copy, Debug, PartialEq, Eq, Structural)]
pub enum RecoveryMode {
    BrokerReplacement,
    RegistrationRefresh,
}

/// Why a recovery ended without a connection.
#[derive(Debug)]
pub enum RecoveryError {
    Unavailable(String),
    DescriptorInvalid(String),
    ProofInvalid(String),
    RegistrationRejected(String),
    Deadline,
    Shutdown,
}

/// Why a recovery ended without a connection.
pub enum RecoveryErrorView {
    Unavailable(Seq<char>),
    DescriptorInvalid(Seq<char>),
    ProofInvalid(Seq<char>),
    RegistrationRejected(Seq<char>),
    Deadline,
    Shutdown,
}

impl View for RecoveryError {
    type V = RecoveryErrorView;

    open spec fn view(&self) -> RecoveryErrorView {
        match self {
            RecoveryError::Unavailable(reason) => RecoveryErrorView::Unavailable(reason@),
            RecoveryError::DescriptorInvalid(reason) => RecoveryErrorView::DescriptorInvalid(
                reason@,
            ),
            RecoveryError::ProofInvalid(reason) => RecoveryErrorView::ProofInvalid(reason@),
            RecoveryError::RegistrationRejected(reason) => RecoveryErrorView::RegistrationRejected(
                reason@,
            ),
            RecoveryError::Deadline => RecoveryErrorView::Deadline,
            RecoveryError::Shutdown => RecoveryErrorView::Shutdown,
        }
    }
}

/// The text of an error of a recovery.
pub open spec fn recovery_text(e: RecoveryErrorView) -> Seq<char> {
    match e {
        RecoveryErrorView::Unavailable(reason) => "broker unavailable: "@ + reason,
        RecoveryErrorView::DescriptorInvalid(reason) => "runtime descriptor is invalid: "@
            + reason,
        RecoveryErrorView::ProofInvalid(reason) => "broker proof is invalid: "@ + reason,
        RecoveryErrorView::RegistrationRejected(reason) => "broker registration was rejected: "@
            + reason,
        RecoveryErrorView::Deadline => "broker recovery deadline expired"@,
        RecoveryErrorView::Shutdown => "broker recovery stopped for shutdown"@,
    }
}

impl RecoveryError {
    /// The text of the error.
    pub fn text(&self) -> (r: String)
        ensures
            r@ == recovery_text(self@),
    {
        match self {
            RecoveryError::Unavailable(reason) => text_join(
                "broker unavailable: ",
                reason.as_str(),
            ),
            RecoveryError::DescriptorInvalid(reason) => text_join(
                "runtime descriptor is invalid: ",
                reason.as_str(),
            ),
            RecoveryError::ProofInvalid(reason) => text_join(
                "broker proof is invalid: ",
                reason.as_str(),
            ),
            RecoveryError::RegistrationRejected(reason) => text_join(
                "broker registration was rejected: ",
                reason.as_str(),
            ),
            RecoveryError::Deadline => "broker recovery deadline expired".to_owned(),
            RecoveryError::Shutdown => "broker recovery stopped for shutdown".to_owned(),
        }
    }
}

/// The error of a result, if it is one.
pub open spec fn recovery_failure<T>(r: Result<T, RecoveryError>) -> Option<RecoveryErrorView> {
    match r {
        Ok(_) => None,
        Err(e) => Some(e@),
    }
}

/// Why a broker could not be launched.
#[derive(Debug)]
pub enum LaunchError {
    Deadline,
    InvalidScope,
    ProofInvalid(String),
    Unavailable(String),
}

/// What a failed launch means for a recovery.
pub open spec fn launch_failure(error: LaunchError) -> RecoveryErrorView {
    match error {
        LaunchError::Deadline => RecoveryErrorView::Deadline,
        LaunchError::InvalidScope => RecoveryErrorView::DescriptorInvalid(
            "broker launcher scope changed"@,
        ),
        LaunchError::ProofInvalid(reason) => RecoveryErrorView::ProofInvalid(reason@),
        LaunchError::Unavailable(reason) => RecoveryErrorView::Unavailable(reason@),
    }
}

/// Tells what a failed launch means for a recovery.
pub fn map_launch_error(error: LaunchError) -> (r: RecoveryError)
    ensures
        r@ == launch_failure(error),
{
    match error {
        LaunchError::Deadline => RecoveryError::Deadline,
        LaunchError::InvalidScope => RecoveryError::DescriptorInvalid(
            "broker launcher scope changed".to_owned(),
        ),
        LaunchError::ProofInvalid(reason) => RecoveryError::ProofInvalid(reason),
        LaunchError::Unavailable(reason) => RecoveryError::Unavailable(reason),
    }
}

/// What a descriptor that could not be read means.
pub open spec fn descriptor_problem(is_io: bool, reason: Seq<char>) -> RecoveryErrorView {
    if is_io {
        RecoveryErrorView::Unavailable(reason)
    } else {
        RecoveryErrorView::DescriptorInvalid(reason)
    }
}

/// What a descriptor that cannot be read means: an input error may pass, anything
/// else will not.
pub fn descriptor_error(is_io: bool, reason: String) -> (r: RecoveryError)
    ensures
        r@ == descriptor_problem(is_io, reason@),
{
    if is_io {
        RecoveryError::Unavailable(reason)
    } else {
        RecoveryError::DescriptorInvalid(reason)
    }
}

/// What a proof that failed means.
pub open spec fn proof_problem(is_transport: bool, reason: Seq<char>) -> RecoveryErrorView {
    if is_transport {
        RecoveryErrorView::Unavailable(reason)
    } else {
        RecoveryErrorView::ProofInvalid(reason)
    }
}

/// What a failed proof means: a failure of the transport may pass, a wrong proof
/// will not.
pub fn classify_proof_error(is_transport: bool, reason: String) -> (r: RecoveryError)
    ensures
        r@ == proof_problem(is_transport, reason@),
{
    if is_transport {
        RecoveryError::Unavailable(reason)
    } else {
        RecoveryError::ProofInvalid(reason)
    }
}

/// What a broker says of itself on disk.
#[derive(Debug)]
pub struct RuntimeDescriptor {
    pub session_key: String,
    pub workspace_id: String,
    pub base_url: String,
    pub bearer_token: String,
    pub broker_instance_id: String,
    pub executable_path: FsPath,
    pub broker_pid: u32,
    pub created_unix_ms: u64,
}

/// Two descriptors say the same.
pub open spec fn same_descriptor(a: RuntimeDescriptor, b: RuntimeDescriptor) -> bool {
    &&& a.session_key@ == b.session_key@
    &&& a.workspace_id@ == b.workspace_id@
    &&& a.base_url@ == b.base_url@
    &&& a.bearer_token@ == b.bearer_token@
    &&& a.broker_instance_id@ == b.broker_instance_id@
    &&& same_path(a.executable_path@, b.executable_path@)
    &&& a.broker_pid == b.broker_pid
    &&& a.created_unix_ms == b.created_unix_ms
}

impl RuntimeDescriptor {
    /// Whether two descriptors say the same.
    pub fn same(&self, other: &RuntimeDescriptor) -> (r: bool)
        ensures
            r == same_descriptor(*self, *other),
    {
        text_eq(self.session_key.as_str(), other.session_key.as_str()) && text_eq(
            self.workspace_id.as_str(),
            other.workspace_id.as_str(),
        ) && text_eq(self.base_url.as_str(), other.base_url.as_str()) && text_eq(
            self.bearer_token.as_str(),
            other.bearer_token.as_str(),
        ) && text_eq(self.broker_instance_id.as_str(), other.broker_instance_id.as_str())
            && self.executable_path.same(&other.executable_path) && self.broker_pid
            == other.broker_pid && self.created_unix_ms == other.created_unix_ms
    }
}

/// Who a session is, whatever broker it is connected to.
#[derive(Debug)]
pub struct SessionIdentity {
    pub session_key: String,
    pub workspace_id: String,
    pub executable: FsPath,
    pub pane_id: String,
    pub harness_session_id: String,
    pub agent_name: Option<String>,
}

/// What is wrong with a descriptor for a session.
pub open spec fn descriptor_failure(identity: SessionIdentity, descriptor: RuntimeDescriptor) -> Option<
    RecoveryErrorView,
> {
    if descriptor.session_key@ != identity.session_key@ {
        Some(RecoveryErrorView::DescriptorInvalid("session identity changed during recovery"@))
    } else if descriptor.workspace_id@ != identity.workspace_id@ {
        Some(RecoveryErrorView::DescriptorInvalid("workspace identity changed during recovery"@))
    } else if !same_path(descriptor.executable_path@, identity.executable@) {
        Some(
            RecoveryErrorView::DescriptorInvalid("executable identity changed during recovery"@),
        )
    } else {
        None
    }
}

/// Checks that a descriptor is one for a session.
pub fn validate_recovered_descriptor(identity: &SessionIdentity, descriptor: &RuntimeDescriptor) -> (r:
    Result<(), RecoveryError>)
    ensures
        recovery_failure(r) == descriptor_failure(*identity, *descriptor),
{
    if !text_eq(descriptor.session_key.as_str(), identity.session_key.as_str()) {
        return Err(
            RecoveryError::DescriptorInvalid("session identity changed during recovery".to_owned()),
        );
    }
    if !text_eq(descriptor.workspace_id.as_str(), identity.workspace_id.as_str()) {
        return Err(
            RecoveryError::DescriptorInvalid(
                "workspace identity changed during recovery".to_owned(),
            ),
        );
    }
    if !descriptor.executable_path.same(&identity.executable) {
        return Err(
            RecoveryError::DescriptorInvalid(
                "executable identity changed during recovery".to_owned(),
            ),
        );
    }
    Ok(())
}

/// A text, if there is one.
pub open spec fn opt_str(t: Option<&str>) -> Option<Seq<char>> {
    match t {
        Some(s) => Some(s@),
        None => None,
    }
}

/// What is wrong with a descriptor that an attempt found, where one instance of
/// the broker does not count.
pub open spec fn candidate_failure(
    identity: SessionIdentity,
    descriptor: RuntimeDescriptor,
    rejected: Option<Seq<char>>,
) -> Option<RecoveryErrorView> {
    match descriptor_failure(identity, descriptor) {
        Some(e) => Some(e),
        None => if rejected == Some(descriptor.broker_instance_id@) {
            Some(
                RecoveryErrorView::Unavailable(
                    "runtime descriptor still names the observed broker instance"@,
                ),
            )
        } else {
            None
        },
    }
}

/// Checks a descriptor that an attempt found.
pub fn check_candidate(
    identity: &SessionIdentity,
    descriptor: &RuntimeDescriptor,
    rejected: Option<&str>,
) -> (r: Result<(), RecoveryError>)
    ensures
        recovery_failure(r) == candidate_failure(*identity, *descriptor, opt_str(rejected)),
{
    validate_recovered_descriptor(identity, descriptor)?;
    if let Some(instance) = rejected {
        if text_eq(instance, descriptor.broker_instance_id.as_str()) {
            return Err(
                RecoveryError::Unavailable(
                    "runtime descriptor still names the observed broker instance".to_owned(),
                ),
            );
        }
    }
    Ok(())
}

/// What is wrong with a connection that was proved and registered.
pub open spec fn connection_failure(
    identity: SessionIdentity,
    descriptor: RuntimeDescriptor,
    connected: RuntimeDescriptor,
    agent_name: Seq<char>,
) -> Option<RecoveryErrorView> {
    if !same_descriptor(connected, descriptor) {
        Some(
            RecoveryErrorView::ProofInvalid(
                "proof or registration changed the discovered broker origin or instance"@,
            ),
        )
    } else {
        name_failure(identity, agent_name)
    }
}

/// What is wrong with the name that a registration gave.
pub open spec fn name_failure(identity: SessionIdentity, agent_name: Seq<char>) -> Option<
    RecoveryErrorView,
> {
    if identity.agent_name is Some && identity.agent_name->0@ != agent_name {
        Some(
            RecoveryErrorView::RegistrationRejected(
                "Herdr verified a different agent name during recovery"@,
            ),
        )
    } else {
        None
    }
}

/// Checks the name that a registration gave: once a session has a name it keeps
/// it.
pub fn check_agent_name(identity: &SessionIdentity, agent_name: &str) -> (r: Result<
    (),
    RecoveryError,
>)
    ensures
        recovery_failure(r) == name_failure(*identity, agent_name@),
{
    match &identity.agent_name {
        Some(expected) => {
            if !text_eq(expected.as_str(), agent_name) {
                return Err(
                    RecoveryError::RegistrationRejected(
                        "Herdr verified a different agent name during recovery".to_owned(),
                    ),
                );
            }
            Ok(())
        },
        None => Ok(()),
    }
}

/// Checks a connection that was proved and registered.
pub fn check_connection(
    identity: &SessionIdentity,
    descriptor: &RuntimeDescriptor,
    connected: &RuntimeDescriptor,
    agent_name: &str,
) -> (r: Result<(), RecoveryError>)
    ensures
        recovery_failure(r) == connection_failure(
            *identity,
            *descriptor,
            *connected,
            agent_name@,
        ),
{
    if !connected.same(descriptor) {
        return Err(
            RecoveryError::ProofInvalid(
                "proof or registration changed the discovered broker origin or instance".to_owned(),
            ),
        );
    }
    check_agent_name(identity, agent_name)
}

/// A connection that an attempt comes to is one to a broker of the session that
/// was not rejected, under the name that the session has.
pub proof fn law_recovered_connection_fits_the_session(
    identity: SessionIdentity,
    descriptor: RuntimeDescriptor,
    rejected: Option<Seq<char>>,
    connected: RuntimeDescriptor,
    agent_name: Seq<char>,
)
    requires
        candidate_failure(identity, descriptor, rejected) is None,
        connection_failure(identity, descriptor, connected, agent_name) is None,
    ensures
        rejected != Some(connected.broker_instance_id@),
        connected.session_key@ == identity.session_key@,
        connected.workspace_id@ == identity.workspace_id@,
        same_path(connected.executable_path@, identity.executable@),
        identity.agent_name is Some ==> identity.agent_name->0@ == agent_name,
{
}

/// Whether the connection that is in place does for a recovery of the one that was
/// observed: another caller has recovered meanwhile.
pub open spec fn installed_does(
    same: bool,
    mode: RecoveryMode,
    installed: Seq<char>,
    observed: Seq<char>,
) -> bool {
    !same && (mode == RecoveryMode::RegistrationRefresh || installed != observed)
}

/// Decides a recovery: the connection in place does, or one is established that
/// may not be to the given instance.
pub fn plan_recovery<'a>(
    same: bool,
    mode: RecoveryMode,
    installed_instance: &str,
    observed_instance: &'a str,
) -> (r: (bool, Option<&'a str>))
    ensures
        r.0 == installed_does(same, mode, installed_instance@, observed_instance@),
        opt_str(r.1) == if mode == RecoveryMode::BrokerReplacement {
            Some(observed_instance@)
        } else {
            None
        },
{
    let reuse = !same && (mode == RecoveryMode::RegistrationRefresh || !text_eq(
        installed_instance,
        observed_instance,
    ));
    let rejected = match mode {
        RecoveryMode::BrokerReplacement => Some(observed_instance),
        RecoveryMode::RegistrationRefresh => None,
    };
    (reuse, rejected)
}

/// The connection that is in place once another one was to be established.
pub open spec fn settled<C>(current: C, established: Result<C, RecoveryError>) -> C {
    match established {
        Ok(replacement) => replacement,
        Err(_) => current,
    }
}

/// Puts a connection that was established in place; one that could not be established
/// leaves the one in place as it is.
pub fn settle_recovery<C>(current: &mut C, established: Result<C, RecoveryError>) -> (r: Result<
    (),
    RecoveryError,
>)
    ensures
        *final(current) == settled(*old(current), established),
        r is Ok == established is Ok,
        r is Err ==> r->Err_0 == established->Err_0,
{
    match established {
        Ok(replacement) => {
            *current = replacement;
            Ok(())
        },
        Err(e) => Err(e),
    }
}

/// A connection: which one it is, and the instance of the broker that it is to.
pub struct ConnectionView {
    pub serial: int,
    pub instance: Seq<char>,
}

/// What was asked of a recovery, and what would come of establishing a connection.
pub struct RecoveryAsked {
    pub observed: ConnectionView,
    pub mode: RecoveryMode,
    pub established: Result<ConnectionView, RecoveryError>,
}

/// The connection in place does for what is asked, so that none is established.
pub open spec fn is_recovered(current: ConnectionView, asked: RecoveryAsked) -> bool {
    installed_does(
        current.serial == asked.observed.serial,
        asked.mode,
        current.instance,
        asked.observed.instance,
    )
}

/// The connection in place after a recovery.
pub open spec fn recovered(current: ConnectionView, asked: RecoveryAsked) -> ConnectionView {
    if is_recovered(current, asked) {
        current
    } else {
        settled(current, asked.established)
    }
}

/// What a recovery gives to the one that asked for it.
pub open spec fn recovery_gives(current: ConnectionView, asked: RecoveryAsked) -> Result<
    ConnectionView,
    RecoveryError,
> {
    if is_recovered(current, asked) {
        Ok(current)
    } else {
        asked.established
    }
}

/// The connection in place after some recoveries, one after the other.
pub open spec fn recovered_all(current: ConnectionView, all: Seq<RecoveryAsked>) -> ConnectionView
    decreases all.len(),
{
    if all.len() == 0 {
        current
    } else {
        recovered(recovered_all(current, all.drop_last()), all.last())
    }
}

/// How many connections were to be established in some recoveries.
pub open spec fn establishments(current: ConnectionView, all: Seq<RecoveryAsked>) -> nat
    decreases all.len(),
{
    if all.len() == 0 {
        0
    } else {
        let front = all.drop_last();
        establishments(current, front) + if is_recovered(recovered_all(current, front), all.last()) {
            0nat
        } else {
            1
        }
    }
}

/// A recovery that gives a connection leaves that one in place, and one that fails
/// leaves the one that was there.
pub proof fn law_recovery_gives_what_it_leaves_in_place(
    current: ConnectionView,
    asked: RecoveryAsked,
)
    ensures
        recovery_gives(current, asked) is Ok ==> recovered(current, asked) == recovery_gives(
            current,
            asked,
        )->Ok_0,
        recovery_gives(current, asked) is Err ==> recovered(current, asked) == current,
{
}

/// Where a replacement is asked for, what is given is never a connection to the
/// instance that was observed, as long as none is established to an instance that was
/// rejected.
pub proof fn law_replacement_leaves_the_observed_instance(
    current: ConnectionView,
    asked: RecoveryAsked,
)
    requires
        asked.mode == RecoveryMode::BrokerReplacement,
        asked.established is Ok ==> asked.established->Ok_0.instance != asked.observed.instance,
    ensures
        recovery_gives(current, asked) is Ok ==> recovery_gives(current, asked)->Ok_0.instance
            != asked.observed.instance,
{
}

/// Of all who saw the same connection fail, the first who succeeds establishes another
/// one, and that one does for those who come after: it is given to each of them, and
/// none of them establishes any. Those who came before it fail, and leave the connection
/// in place as it was. `first` is the place of the first success, or the number of all
/// where there is none. Those who ask for another instance need one to have been found.
pub proof fn law_recoveries_share_one_connection(
    observed: ConnectionView,
    all: Seq<RecoveryAsked>,
    first: int,
    k: int,
)
    requires
        0 <= first <= all.len(),
        0 <= k < all.len(),
        forall|i: int| 0 <= i < all.len() ==> (#[trigger] all[i]).observed == observed,
        forall|i: int| 0 <= i < first ==> (#[trigger] all[i]).established is Err,
        first < all.len() ==> all[first].established is Ok
            && all[first].established->Ok_0.serial != observed.serial,
        first < all.len() ==> all[first].established->Ok_0.instance != observed.instance || (
        forall|i: int|
            first < i < all.len() ==> (#[trigger] all[i]).mode
                == RecoveryMode::RegistrationRefresh),
    ensures
        recovered_all(observed, all) == if first < all.len() {
            all[first].established->Ok_0
        } else {
            observed
        },
        establishments(observed, all) == if first < all.len() {
            first + 1
        } else {
            first
        },
        recovery_gives(recovered_all(observed, all.take(k)), all[k]) == if first <= k {
            all[first].established
        } else {
            all[k].established
        },
    decreases all.len(),
{
    let front = all.drop_last();
    let last = all.len() - 1;
    assert(all.last() == all[last]);
    assert(all[last].observed == observed);
    if all.len() == 1 {
        assert(front =~= Seq::empty());
        assert(all.take(0) =~= front);
        assert(recovered_all(observed, front) == observed);
        assert(establishments(observed, front) == 0);
    } else {
        assert forall|i: int| 0 <= i < front.len() implies (#[trigger] front[i]).observed
            == observed by {
            assert(front[i] == all[i]);
        }
        let before = if first < all.len() {
            first
        } else {
            all.len() - 1
        };
        assert forall|i: int| 0 <= i < before implies (#[trigger] front[i]).established is Err by {
            assert(front[i] == all[i]);
        }
        if first < last {
            assert(front[first] == all[first]);
            if all[first].established->Ok_0.instance == observed.instance {
                assert forall|i: int| first < i < front.len() implies (#[trigger] front[i]).mode
                    == RecoveryMode::RegistrationRefresh by {
                    assert(front[i] == all[i]);
                }
            }
        }
        let at = if k < last {
            k
        } else {
            0
        };
        law_recoveries_share_one_connection(observed, front, before, at);
        assert(front[at] == all[at]);
        if k < last {
            assert(front.take(k) =~= all.take(k));
        } else {
            assert(all.take(k) =~= front);
        }
    }
}

/// Whether the connection in place is handed back to one who saw the broker instance
/// `observed`: it is to another instance already, so that nothing is launched.
pub fn keeps_replacement(installed: &str, observed: &str) -> (r: bool)
    ensures
        r == (installed@ != observed@),
{
    !text_eq(installed, observed)
}

/// Whether a broker was replaced, by what was found on disk.
pub open spec fn replacement_found(
    identity: SessionIdentity,
    observed: Seq<char>,
    found: Result<RuntimeDescriptor, RecoveryError>,
) -> Result<bool, RecoveryErrorView> {
    match found {
        Err(e) => match e@ {
            RecoveryErrorView::Unavailable(_) => Ok(false),
            other => Err(other),
        },
        Ok(descriptor) => match descriptor_failure(identity, descriptor) {
            Some(e) => Err(e),
            None => Ok(descriptor.broker_instance_id@ != observed),
        },
    }
}

/// A result whose error is one of a recovery.
pub open spec fn recovery_outcome<T>(r: Result<T, RecoveryError>) -> Result<T, RecoveryErrorView> {
    match r {
        Ok(v) => Ok(v),
        Err(e) => Err(e@),
    }
}

/// Tells whether a broker was replaced, by what was found on disk.
pub fn judge_replacement(
    identity: &SessionIdentity,
    observed_instance: &str,
    found: Result<&RuntimeDescriptor, RecoveryError>,
) -> (r: Result<bool, RecoveryError>)
    ensures
        recovery_outcome(r) == replacement_found(
            *identity,
            observed_instance@,
            match found {
                Ok(d) => Ok(*d),
                Err(e) => Err(e),
            },
        ),
{
    match found {
        Err(e) => match e {
            RecoveryError::Unavailable(_) => Ok(false),
            other => Err(other),
        },
        Ok(descriptor) => {
            validate_recovered_descriptor(identity, descriptor)?;
            Ok(!text_eq(descriptor.broker_instance_id.as_str(), observed_instance))
        },
    }
}

/// How long is waited before an attempt, in milliseconds, without jitter.
pub open spec fn backoff_base(index: nat) -> nat {
    if index == 0 {
        50
    } else if index == 1 {
        100
    } else if index == 2 {
        200
    } else if index == 3 {
        400
    } else if index == 4 {
        800
    } else {
        1000
    }
}

/// How long is waited before an attempt, in milliseconds, without jitter.
pub fn backoff_base_ms(index: usize) -> (r: u64)
    ensures
        r == backoff_base(index as nat),
{
    if index == 0 {
        50
    } else if index == 1 {
        100
    } else if index == 2 {
        200
    } else if index == 3 {
        400
    } else if index == 4 {
        800
    } else {
        1000
    }
}

/// The percentage of jitter that counts.
pub open spec fn counted_jitter(jitter: u8) -> nat {
    if jitter <= 25 {
        jitter as nat
    } else {
        25
    }
}

/// How long is waited before an attempt, in microseconds, with jitter.
pub open spec fn backoff_delay(index: nat, jitter: u8) -> nat {
    backoff_base(index) * 1000 + backoff_base(index) * 10 * counted_jitter(jitter)
}

/// How long is left until a deadline.
pub open spec fn time_left(deadline: u64, now: u64) -> nat {
    if deadline <= now {
        0
    } else {
        (deadline - now) as nat
    }
}

/// How long is waited before the next attempt, in microseconds, or that there is
/// no time for one.
pub open spec fn retry_delay(index: nat, jitter: u8, deadline: Option<u64>, now: u64) -> Option<nat> {
    let full = backoff_delay(index, jitter);
    match deadline {
        None => Some(full),
        Some(d) => if time_left(d, now) == 0 {
            None
        } else if full <= time_left(d, now) {
            Some(full)
        } else {
            Some(time_left(d, now))
        },
    }
}

/// The state of a series of attempts.
#[derive(Clone, Copy, Debug, PartialEq, Eq, Structural)]
pub struct Backoff {
    pub index: usize,
}

/// What is done after an attempt.
#[derive(Debug)]
pub enum EstablishStep {
    /// The attempt gave a connection.
    Connected,
    /// There is a wait, in microseconds, and then another attempt.
    Wait(u64),
    /// The recovery ends with an error.
    Stop(RecoveryError),
}

/// What is done after an attempt.
pub enum EstablishView {
    Connected,
    Wait(nat),
    Stop(RecoveryErrorView),
}

impl View for EstablishStep {
    type V = EstablishView;

    open spec fn view(&self) -> EstablishView {
        match self {
            EstablishStep::Connected => EstablishView::Connected,
            EstablishStep::Wait(us) => EstablishView::Wait(*us as nat),
            EstablishStep::Stop(e) => EstablishView::Stop(e@),
        }
    }
}

/// What is done after an attempt: only a broker that is unavailable is tried
/// again, and only while there is time.
pub open spec fn after_attempt(
    index: nat,
    failed: Option<RecoveryErrorView>,
    jitter: u8,
    deadline: Option<u64>,
    now: u64,
) -> EstablishView {
    match failed {
        None => EstablishView::Connected,
        Some(RecoveryErrorView::Unavailable(_)) => match retry_delay(
            index,
            jitter,
            deadline,
            now,
        ) {
            None => EstablishView::Stop(RecoveryErrorView::Deadline),
            Some(us) => EstablishView::Wait(us),
        },
        Some(e) => EstablishView::Stop(e),
    }
}

/// Why another attempt is not made.
pub open spec fn attempt_refused(shutdown: bool, deadline: Option<u64>, now: u64) -> Option<
    RecoveryErrorView,
> {
    if shutdown {
        Some(RecoveryErrorView::Shutdown)
    } else if deadline is Some && time_left(deadline->0, now) == 0 {
        Some(RecoveryErrorView::Deadline)
    } else {
        None
    }
}

/// Decides whether there is an attempt at all: not in a shutdown, and not after
/// the deadline.
pub fn admit_attempt(shutdown: bool, deadline: Option<u64>, now: u64) -> (r: Result<
    (),
    RecoveryError,
>)
    ensures
        recovery_failure(r) == attempt_refused(shutdown, deadline, now),
{
    if shutdown {
        return Err(RecoveryError::Shutdown);
    }
    match deadline {
        Some(d) => {
            if now >= d {
                return Err(RecoveryError::Deadline);
            }
            Ok(())
        },
        None => Ok(()),
    }
}

/// Until when a launch may take.
pub open spec fn launch_by(deadline: Option<u64>, now: u64) -> u64 {
    match deadline {
        Some(d) => d,
        None => (now + RECOVERY_LAUNCH_TIMEOUT_US) as u64,
    }
}

/// Until when a launch of the broker may take.
pub fn launch_deadline(deadline: Option<u64>, now: u64) -> (r: u64)
    requires
        now <= u64::MAX - RECOVERY_LAUNCH_TIMEOUT_US,
    ensures
        r == launch_by(deadline, now),
{
    match deadline {
        Some(d) => d,
        None => now + RECOVERY_LAUNCH_TIMEOUT_US,
    }
}

impl Backoff {
    /// A series without attempts.
    pub fn start() -> (r: Backoff)
        ensures
            r.index == 0,
    {
        Backoff { index: 0 }
    }

    /// Decides what is done after an attempt.
    pub fn settle_attempt(
        &mut self,
        result: Result<(), RecoveryError>,
        jitter: u8,
        deadline: Option<u64>,
        now: u64,
    ) -> (r: EstablishStep)
        ensures
            r@ == after_attempt(
                old(self).index as nat,
                recovery_failure(result),
                jitter,
                deadline,
                now,
            ),
            final(self).index == if recovery_failure(result) is Some
                && recovery_failure(result)->0 is Unavailable && old(self).index < usize::MAX {
                (old(self).index + 1) as usize
            } else {
                old(self).index
            },
    {
        match result {
            Ok(_) => EstablishStep::Connected,
            Err(e) => match e {
                RecoveryError::Unavailable(_) => {
                    let base = backoff_base_ms(self.index);
                    if self.index < usize::MAX {
                        self.index = self.index + 1;
                    }
                    let counted: u64 = if jitter <= 25 {
                        jitter as u64
                    } else {
                        25
                    };
                    assert(base <= 1000);
                    assert(base * 10 * counted <= 250_000) by (nonlinear_arith)
                        requires
                            base <= 1000,
                            counted <= 25,
                    ;
                    let delay: u64 = base * 1000 + base * 10 * counted;
                    match deadline {
                        None => EstablishStep::Wait(delay),
                        Some(d) => {
                            if d <= now {
                                return EstablishStep::Stop(RecoveryError::Deadline);
                            }
                            let remaining: u64 = d - now;
                            if delay <= remaining {
                                EstablishStep::Wait(delay)
                            } else {
                                EstablishStep::Wait(remaining)
                            }
                        },
                    }
                },
                other => EstablishStep::Stop(other),
            },
        }
    }
}

/// Waits get no shorter from attempt to attempt, and none is longer than a second
/// and a quarter.
pub proof fn law_backoff_grows_to_a_bound(i: nat, j: nat, jitter: u8)
    requires
        i <= j,
    ensures
        backoff_delay(i, jitter) <= backoff_delay(j, jitter),
        50_000 <= backoff_delay(i, jitter) <= 1_250_000,
        backoff_delay(i, 0) == backoff_base(i) * 1000,
{
    let a = backoff_base(i);
    let b = backoff_base(j);
    let c = counted_jitter(jitter);
    assert(a <= b);
    assert(a * 10 * c <= b * 10 * c) by (nonlinear_arith)
        requires
            a <= b,
    ;
    assert(a * 10 * c <= 250_000) by (nonlinear_arith)
        requires
            a <= 1000,
            c <= 25,
    ;
    assert(a * 10 * c >= 0) by (nonlinear_arith);
    assert(a * 10 * 0 == 0) by (nonlinear_arith);
}

/// A recovery never waits past its deadline, and after the deadline it never
/// waits: it stays within the time of the operation that it is for.
pub proof fn law_recovery_keeps_the_deadline(
    index: nat,
    failed: Option<RecoveryErrorView>,
    jitter: u8,
    deadline: u64,
    now: u64,
)
    ensures
        match after_attempt(index, failed, jitter, Some(deadline), now) {
            EstablishView::Wait(us) => now < deadline && now + us <= deadline && us > 0,
            _ => true,
        },
{
    law_backoff_grows_to_a_bound(index, index, jitter);
}

/// A wait means that the broker was unavailable: every other error ends the
/// recovery as it is.
pub proof fn law_only_unavailable_is_tried_again(
    index: nat,
    failed: RecoveryErrorView,
    jitter: u8,
    deadline: Option<u64>,
    now: u64,
)
    ensures
        after_attempt(index, Some(failed), jitter, deadline, now) is Wait ==> failed
            is Unavailable,
        !(failed is Unavailable) ==> after_attempt(index, Some(failed), jitter, deadline, now)
            == EstablishView::Stop(failed),
{
}

/// The text under a name in the error of a reply.
pub open spec fn error_field(v: JsonView, name: Seq<char>) -> Option<Seq<char>> {
    match json_get(v, "error"@) {
        Some(error) => json_get_text(error, name),
        None => None,
    }
}

/// What a reply that refuses a registration means: a pane that is still being
/// verified is tried again, anything else is not.
pub open spec fn registration_error_of(status: u16, parsed: Option<JsonView>) -> RecoveryErrorView {
    let message = match parsed {
        Some(v) => match error_field(v, "message"@) {
            Some(text) => text,
            None => "broker returned HTTP "@ + http_status_text(status),
        },
        None => "broker returned HTTP "@ + http_status_text(status),
    };
    if parsed is Some && error_field(parsed->0, "code"@) == Some("verification_failed"@) {
        RecoveryErrorView::Unavailable(message)
    } else {
        RecoveryErrorView::RegistrationRejected(message)
    }
}

/// The text under a name in the error of a reply.
pub fn get_error_field(value: &Json, name: &str) -> (r: Option<String>)
    ensures
        crate::record::opt_text(r) == error_field(value@, name@),
{
    match value.get("error") {
        Some(error) => match error.get_text(name) {
            Some(text) => Some(text.clone()),
            None => None,
        },
        None => None,
    }
}

/// Tells what the parsed reply that refuses a registration means.
pub fn registration_error(status: u16, parsed: Option<&Json>) -> (r: RecoveryError)
    requires
        100 <= status < 1000,
    ensures
        r@ == registration_error_of(
            status,
            match parsed {
                Some(v) => Some(v@),
                None => None,
            },
        ),
{
    let (code, message) = match parsed {
        Some(value) => (get_error_field(value, "code"), get_error_field(value, "message")),
        None => (None, None),
    };
    let message = match message {
        Some(text) => text,
        None => text_join("broker returned HTTP ", status_text(status).as_str()),
    };
    let pending = match code {
        Some(code) => text_eq(code.as_str(), "verification_failed"),
        None => false,
    };
    if pending {
        RecoveryError::Unavailable(message)
    } else {
        RecoveryError::RegistrationRejected(message)
    }
}

/// Tells what a reply that refuses a registration means.
pub fn decode_registration_error(status: u16, encoded: &[u8]) -> (r: RecoveryError)
    requires
        100 <= status < 1000,
    ensures
        r@ == registration_error_of(
            status,
            match json_parsed(encoded@) {
                Ok(v) => Some(v),
                Err(_) => None,
            },
        ),
{
    match parse_json(encoded) {
        Ok(value) => registration_error(status, Some(&value)),
        Err(_) => registration_error(status, None),
    }
}

/// What is wrong with the HTTP status of a question for health.
pub open spec fn unhealthy(status: u16) -> Option<RecoveryErrorView> {
    if 200 <= status < 300 {
        None
    } else {
        Some(
            RecoveryErrorView::RegistrationRejected(
                "health returned HTTP "@ + http_status_text(status),
            ),
        )
    }
}

/// Checks that the broker is well before a session registers with it.
pub fn check_health(status: u16) -> (r: Result<(), RecoveryError>)
    requires
        100 <= status < 1000,
    ensures
        recovery_failure(r) == unhealthy(status),
{
    if 200 <= status && status < 300 {
        return Ok(());
    }
    Err(
        RecoveryError::RegistrationRejected(
            text_join("health returned HTTP ", status_text(status).as_str()),
        ),
    )
}

/// The error of a reply to a registration that is too long.
pub fn oversized_registration() -> (r: RecoveryError)
    ensures
        r@ == RecoveryErrorView::RegistrationRejected("registration response exceeded its bound"@),
{
    RecoveryError::RegistrationRejected("registration response exceeded its bound".to_owned())
}

/// The headers that a session shows to its broker: the bearer token, and the
/// registration once there is one.
pub open spec fn headers_of(token: Seq<char>, registration: Option<(Seq<char>, u64)>) -> Seq<
    (Seq<char>, Seq<char>),
> {
    let bearer = ("authorization"@, "Bearer "@ + token);
    match registration {
        None => seq![bearer],
        Some((id, epoch)) => seq![
            bearer,
            ("x-herdr-a2a-registration"@, id),
            ("x-herdr-a2a-registration-epoch"@, decimal(epoch as nat)),
        ],
    }
}

/// What some headers say.
pub open spec fn header_views(headers: Seq<(String, String)>) -> Seq<(Seq<char>, Seq<char>)> {
    headers.map_values(|h: (String, String)| (h.0@, h.1@))
}

/// The headers that a session shows to its broker.
pub fn authenticated_headers(token: &str, registration: Option<(&str, u64)>) -> (r: Vec<
    (String, String),
>)
    ensures
        header_views(r@) == headers_of(
            token@,
            match registration {
                Some((id, epoch)) => Some((id@, epoch)),
                None => None,
            },
        ),
{
    let mut headers: Vec<(String, String)> = Vec::new();
    headers.push(("authorization".to_owned(), text_join("Bearer ", token)));
    if let Some((id, epoch)) = registration {
        let mut number = String::new();
        push_decimal(&mut number, epoch);
        assert(number@ =~= decimal(epoch as nat));
        headers.push(("x-herdr-a2a-registration".to_owned(), id.to_owned()));
        headers.push(("x-herdr-a2a-registration-epoch".to_owned(), number));
    }
    assert(header_views(headers@) =~= headers_of(
        token@,
        match registration {
            Some((id, epoch)) => Some((id@, epoch)),
            None => None,
        },
    ));
    headers
}

/// Two descriptors say the same just when no field differs, but for how the path of the
/// program is spelled.
pub proof fn law_descriptors_are_compared_whole(a: RuntimeDescriptor, b: RuntimeDescriptor)
    ensures
        same_descriptor(a, b) <==> (
            a.session_key@,
            a.workspace_id@,
            a.base_url@,
            a.bearer_token@,
            a.broker_instance_id@,
            parts(a.executable_path@),
            a.broker_pid,
            a.created_unix_ms,
        ) == (
            b.session_key@,
            b.workspace_id@,
            b.base_url@,
            b.bearer_token@,
            b.broker_instance_id@,
            parts(b.executable_path@),
            b.broker_pid,
            b.created_unix_ms,
        ),
{
}

/// A descriptor is usable just when it is of the session, of its workspace and of its
/// program; an attempt may use it just when it does not name the instance that was
/// rejected, and an instance that was rejected is tried again, since it may go yet.
pub proof fn law_usable_descriptors_are_of_the_session(
    identity: SessionIdentity,
    descriptor: RuntimeDescriptor,
    rejected: Option<Seq<char>>,
)
    ensures
        ({
            let own = descriptor.session_key@ == identity.session_key@ && descriptor.workspace_id@
                == identity.workspace_id@ && parts(descriptor.executable_path@) == parts(
                identity.executable@,
            );
            let failed = candidate_failure(identity, descriptor, rejected);
            &&& descriptor_failure(identity, descriptor) is None <==> own
            &&& !own ==> descriptor_failure(identity, descriptor)->0 is DescriptorInvalid
            &&& failed is None <==> own && rejected != Some(descriptor.broker_instance_id@)
            &&& own && rejected == Some(descriptor.broker_instance_id@) ==> failed->0 is Unavailable
            &&& !own ==> failed is Some && failed->0 is DescriptorInvalid
        }),
{
}

/// A connection is taken just when it is to the broker that was discovered and the name
/// that was verified is the one of the session, or the session has none yet; another
/// broker is a failed proof, another name a refused registration.
pub proof fn law_connections_are_to_the_discovered_broker(
    identity: SessionIdentity,
    descriptor: RuntimeDescriptor,
    connected: RuntimeDescriptor,
    name: Seq<char>,
)
    ensures
        ({
            let failed = connection_failure(identity, descriptor, connected, name);
            let named = identity.agent_name is None || identity.agent_name->0@ == name;
            &&& failed is None <==> same_descriptor(connected, descriptor) && named
            &&& !same_descriptor(connected, descriptor) ==> failed->0 is ProofInvalid
            &&& same_descriptor(connected, descriptor) && !named ==> failed->0
                is RegistrationRejected
            &&& name_failure(identity, name) is None <==> named
        }),
{
}

/// The connection in place does just when it is another one than the one observed and,
/// where the broker is to be replaced, is to another instance.
pub proof fn law_another_connection_may_do(
    same: bool,
    mode: RecoveryMode,
    installed: Seq<char>,
    observed: Seq<char>,
)
    ensures
        same ==> !installed_does(same, mode, installed, observed),
        !same && mode is RegistrationRefresh ==> installed_does(same, mode, installed, observed),
        mode is BrokerReplacement && installed == observed ==> !installed_does(
            same,
            mode,
            installed,
            observed,
        ),
        !same && installed != observed ==> installed_does(same, mode, installed, observed),
{
}

/// A broker was replaced just when a descriptor of the session names another instance;
/// one that cannot be found says that it was not, and any other error is told.
pub proof fn law_replacements_name_another_instance(
    identity: SessionIdentity,
    observed: Seq<char>,
    found: Result<RuntimeDescriptor, RecoveryError>,
)
    ensures
        ({
            let r = replacement_found(identity, observed, found);
            &&& r == Ok::<bool, RecoveryErrorView>(true) <==> found is Ok && descriptor_failure(
                identity,
                found->Ok_0,
            ) is None && found->Ok_0.broker_instance_id@ != observed
            &&& found is Err && found->Err_0@ is Unavailable ==> r == Ok::<
                bool,
                RecoveryErrorView,
            >(false)
            &&& found is Err && !(found->Err_0@ is Unavailable) ==> r == Err::<
                bool,
                RecoveryErrorView,
            >(found->Err_0@)
            &&& r is Err && found is Ok ==> r->Err_0 is DescriptorInvalid
        }),
{
}

/// Each wait is twice the one before, from 50 milliseconds up to a second; jitter adds up
/// to a quarter, one hundredth for each per cent.
pub proof fn law_waits_double_up_to_a_second(index: nat, jitter: u8)
    ensures
        backoff_base(0) == 50,
        backoff_base(index + 1) == (if 2 * backoff_base(index) < 1000 {
            2 * backoff_base(index)
        } else {
            1000
        }),
        jitter <= 25 ==> 100 * backoff_delay(index, jitter) == backoff_delay(index, 0) * (100
            + jitter),
        jitter > 25 ==> backoff_delay(index, jitter) == backoff_delay(index, 25),
{
    let base = backoff_base(index);
    if jitter <= 25 {
        assert(100 * (base * 1000 + base * 10 * jitter) == (base * 1000) * (100 + jitter))
            by (nonlinear_arith);
        assert(base * 10 * 0 == 0);
    }
}

/// A wait is the full one unless the deadline comes first, and then it lasts until the
/// deadline; there is none just when the deadline is over.
pub proof fn law_waits_are_cut_at_the_deadline(
    index: nat,
    jitter: u8,
    deadline: Option<u64>,
    now: u64,
)
    ensures
        ({
            let full = backoff_delay(index, jitter);
            let wait = retry_delay(index, jitter, deadline, now);
            &&& deadline is None ==> wait == Some(full)
            &&& deadline is Some ==> (wait is None <==> deadline->0 <= now)
            &&& deadline is Some && now < deadline->0 && now + full <= deadline->0 ==> wait == Some(
                full,
            )
            &&& deadline is Some && now < deadline->0 && now + full > deadline->0 ==> now
                + wait->0 == deadline->0
        }),
{
}

/// An attempt that succeeds ends the series; an unavailable broker is tried again after
/// the wait, or the deadline is told where it is over.
pub proof fn law_attempts_end_with_a_connection(
    index: nat,
    failed: Option<RecoveryErrorView>,
    jitter: u8,
    deadline: Option<u64>,
    now: u64,
)
    ensures
        after_attempt(index, failed, jitter, deadline, now) is Connected <==> failed is None,
        failed is Some && failed->0 is Unavailable && (deadline is None || now < deadline->0)
            ==> after_attempt(index, failed, jitter, deadline, now) is Wait && Some(
            after_attempt(index, failed, jitter, deadline, now)->Wait_0,
        ) == retry_delay(index, jitter, deadline, now),
        failed is Some && failed->0 is Unavailable && deadline is Some && deadline->0 <= now
            ==> after_attempt(index, failed, jitter, deadline, now) == EstablishView::Stop(
            RecoveryErrorView::Deadline,
        ),
{
}

/// A refused registration is tried again just when the broker says that the verification
/// failed; its words are handed on, and its status where it has none.
pub proof fn law_unverified_panes_are_tried_again(status: u16, parsed: Option<JsonView>)
    ensures
        ({
            let e = registration_error_of(status, parsed);
            let words = if parsed is Some && error_field(parsed->0, "message"@) is Some {
                error_field(parsed->0, "message"@)->0
            } else {
                "broker returned HTTP "@ + http_status_text(status)
            };
            let unverified = parsed is Some && error_field(parsed->0, "code"@) == Some(
                "verification_failed"@,
            );
            &&& unverified ==> e == RecoveryErrorView::Unavailable(words)
            &&& !unverified ==> e == RecoveryErrorView::RegistrationRejected(words)
        }),
{
}

/// The fields of an error are looked up in the object under its name.
pub proof fn law_error_fields_lie_in_the_error(v: JsonView, name: Seq<char>, text: Seq<char>)
    ensures
        error_field(v, name) == Some(text) <==> (json_get(v, "error"@) is Some && json_get_text(
            json_get(v, "error"@)->0,
            name,
        ) == Some(text)),
{
}

/// A session always shows its bearer token, and its registration and the epoch of it once
/// it has one.
pub proof fn law_sessions_show_their_registration(
    token: Seq<char>,
    registration: Option<(Seq<char>, u64)>,
)
    ensures
        ({
            let headers = headers_of(token, registration);
            &&& headers[0] == ("authorization"@, "Bearer "@ + token)
            &&& headers.len() == (if registration is Some {
                3nat
            } else {
                1nat
            })
            &&& registration is Some ==> headers[1] == (
                "x-herdr-a2a-registration"@,
                (registration->0).0,
            ) && headers[2] == (
                "x-herdr-a2a-registration-epoch"@,
                decimal((registration->0).1 as nat),
            )
        }),
{
}

/// A launch that fails keeps its reason: a deadline stays one, a scope that changed makes
/// the descriptor invalid, and an unavailable broker may be tried again.
pub proof fn law_launch_errors_keep_their_kind(error: LaunchError)
    ensures
        launch_failure(error) is Deadline <==> error is Deadline,
        launch_failure(error) is DescriptorInvalid <==> error is InvalidScope,
        error is ProofInvalid ==> launch_failure(error) == RecoveryErrorView::ProofInvalid(
            error->ProofInvalid_0@,
        ),
        error is Unavailable ==> launch_failure(error) == RecoveryErrorView::Unavailable(
            error->Unavailable_0@,
        ),
{
}

/// An attempt is made just when the session is not ending and there is time left; an end
/// counts before the time.
pub proof fn law_attempts_are_made_in_time(shutdown: bool, deadline: Option<u64>, now: u64)
    ensures
        attempt_refused(shutdown, deadline, now) is None <==> (!shutdown && (deadline is None || now
            < deadline->0)),
        shutdown ==> attempt_refused(shutdown, deadline, now) == Some(RecoveryErrorView::Shutdown),
        !shutdown && deadline is Some && deadline->0 <= now ==> attempt_refused(
            shutdown,
            deadline,
            now,
        ) == Some(RecoveryErrorView::Deadline),
{
}

/// A broker is healthy just with a status of success. What could not be read or reached may
/// be tried again; what was read and is wrong may not.
pub proof fn law_only_what_was_not_reached_is_tried_again(
    status: u16,
    outside: bool,
    reason: Seq<char>,
)
    ensures
        unhealthy(status) is None <==> 200 <= status <= 299,
        unhealthy(status) is Some ==> unhealthy(status)->0 is RegistrationRejected,
        outside ==> descriptor_problem(outside, reason) == RecoveryErrorView::Unavailable(reason)
            && proof_problem(outside, reason) == RecoveryErrorView::Unavailable(reason),
        !outside ==> descriptor_problem(outside, reason) == RecoveryErrorView::DescriptorInvalid(
            reason,
        ) && proof_problem(outside, reason) == RecoveryErrorView::ProofInvalid(reason),
{
}

/// A launch takes no longer than the operation that it is for, and ten seconds without one.
pub proof fn law_launches_are_bounded(deadline: Option<u64>, now: u64)
    requires
        now <= u64::MAX - 10_000_000,
    ensures
        deadline is Some ==> launch_by(deadline, now) == deadline->0,
        deadline is None ==> launch_by(deadline, now) == now + 10_000_000,
{
}

} // verus!
