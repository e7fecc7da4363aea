//! The client's session: the title screen, connecting, and playing.
use vstd::prelude::*;
use crate::nickname::{validate, validation};

verus! {

#[derive(Clone, Copy, Debug, PartialEq, Eq, Structural)]
pub enum SessionPhase {
    Title,
    Connecting,
    Playing,
}

impl Default for SessionPhase {
    fn default() -> (p: Self)
        ensures
            p == SessionPhase::Title,
    {
        SessionPhase::Title
    }
}

/// Where the client is, the nickname it plays under and the last error shown.
pub struct Session {
    pub phase: SessionPhase,
    pub nickname: String,
    pub error: Option<String>,
}

impl Default for Session {
    fn default() -> (s: Self)
        ensures
            s.phase == SessionPhase::Title,
            s.nickname@.len() == 0,
            s.error is None,
    {
        Session { phase: SessionPhase::Title, nickname: String::new(), error: None }
    }
}

impl Session {
    pub fn is_playing(&self) -> (playing: bool)
        ensures
            playing == (self.phase == SessionPhase::Playing),
    {
        self.phase == SessionPhase::Playing
    }
}

/// Start joining the game under `nickname`, from the title screen only.
/// Returns whether the client should now open a connection: the nickname was
/// valid, and the session is connecting under the validated name.
pub fn begin_join(session: &mut Session, nickname: &str) -> (connect: bool)
    ensures
        old(session).phase != SessionPhase::Title ==> !connect && final(session).phase == old(session).phase
            && final(session).nickname@ == old(session).nickname@
            && final(session).error == old(session).error,
        old(session).phase == SessionPhase::Title ==> match validation(nickname@) {
            Ok(name) => {
                &&& connect
                &&& final(session).phase == SessionPhase::Connecting
                &&& final(session).nickname@ == name
                &&& final(session).error is None
            },
            Err(reason) => {
                &&& !connect
                &&& final(session).phase == SessionPhase::Title
                &&& final(session).nickname@ == old(session).nickname@
                &&& final(session).error matches Some(e) && e@ == reason
            },
        },
{
    if session.phase != SessionPhase::Title {
        return false;
    }
    match validate(nickname) {
        Ok(name) => {
            session.nickname = name;
            session.error = None;
            session.phase = SessionPhase::Connecting;
            true
        },
        Err(reason) => {
            session.error = Some(reason.to_owned());
            false
        },
    }
}

/// The URL that `url::Url::parse` makes of `url`, with the pair `key`=`value`
/// appended to its query by `query_pairs_mut().append_pair`, as `as_str`
/// serializes it; `None` when `url` does not parse as an absolute URL.
pub uninterp spec fn url_with_pair(url: Seq<char>, key: Seq<char>, value: Seq<char>) -> Option<Seq<char>>;

/// Calls `url::Url::parse`, then `query_pairs_mut().append_pair` on the
/// parsed URL, and returns its serialization.  The parsing, normalization and
/// percent-encoding are named by `url_with_pair` and not written out here.
#[verifier::external_body]
fn append_query_pair(url: &str, key: &str, value: &str) -> (r: Option<String>)
    ensures
        r matches Some(s) ==> url_with_pair(url@, key@, value@) == Some(s@),
        r is None ==> url_with_pair(url@, key@, value@) is None,
{
    match url::Url::parse(url) {
        Ok(mut endpoint) => {
            endpoint.query_pairs_mut().append_pair(key, value);
            Some(endpoint.as_str().to_owned())
        },
        Err(_) => None,
    }
}

/// Start joining the game under `nickname` (as `begin_join` does) and give
/// the endpoint to connect to: the game server's URL `server_url` with the
/// client's simulation `build` in its query.  `None` when the client should
/// not connect, or when the server URL does not parse.
pub fn join_endpoint(session: &mut Session, nickname: &str, server_url: &str, build: &str) -> (endpoint: Option<
    String,
>)
    ensures
        old(session).phase != SessionPhase::Title ==> final(session).phase == old(session).phase
            && final(session).nickname@ == old(session).nickname@
            && final(session).error == old(session).error,
        old(session).phase == SessionPhase::Title ==> match validation(nickname@) {
            Ok(name) => {
                &&& final(session).phase == SessionPhase::Connecting
                &&& final(session).nickname@ == name
                &&& final(session).error is None
            },
            Err(reason) => {
                &&& final(session).phase == SessionPhase::Title
                &&& final(session).nickname@ == old(session).nickname@
                &&& final(session).error matches Some(e) && e@ == reason
            },
        },
        endpoint is Some <==> (old(session).phase == SessionPhase::Title && validation(nickname@) is Ok
            && url_with_pair(server_url@, "build"@, build@) is Some),
        endpoint matches Some(e) ==> url_with_pair(server_url@, "build"@, build@) == Some(e@),
{
    if !begin_join(session, nickname) {
        return None;
    }
    append_query_pair(server_url, "build", build)
}

/// What the client's connection reported this frame.
pub struct LinkReport {
    /// Reasons of the join refusals received, in order.
    pub refusals: Vec<String>,
    /// The connection is closed.
    pub disconnected: bool,
    /// The close came with a reason.
    pub disconnect_reason: bool,
}

/// The message a session ends with this frame, if any: the last refusal,
/// else a disconnect (with a reason, or while playing), else a lost
/// connection, else a timeout while connecting with no player yet.
pub open spec fn session_failure(
    phase: SessionPhase,
    link: Option<(Seq<Seq<char>>, bool, bool)>,
    player_arrived: bool,
    timed_out: bool,
) -> Option<Seq<char>> {
    let early = match link {
        Some((refusals, disconnected, with_reason)) => if refusals.len() > 0 {
            Some(refusals.last())
        } else if disconnected && (with_reason || phase == SessionPhase::Playing) {
            Some("Disconnected. Check the server and try again."@)
        } else {
            None
        },
        None => Some("Connection lost. Please try again."@),
    };
    if early is None && phase == SessionPhase::Connecting && !player_arrived && timed_out {
        Some("Connection timed out. Check the server and try again."@)
    } else {
        early
    }
}

/// How a session ends: a refusal ends it with the server's reason (the last
/// one), a closed connection ends it when the close carried a reason or the
/// player was in the game, a vanished connection always ends it, and a
/// connection that stays up without refusals ends only by timing out while
/// still waiting for the player.
pub proof fn lemma_session_failures(
    phase: SessionPhase,
    refusals: Seq<Seq<char>>,
    disconnected: bool,
    with_reason: bool,
    arrived: bool,
    timed_out: bool,
)
    ensures
        disconnected && with_reason ==> session_failure(
            phase,
            Some((refusals, disconnected, with_reason)),
            arrived,
            timed_out,
        ) is Some,
        disconnected && phase == SessionPhase::Playing ==> session_failure(
            phase,
            Some((refusals, disconnected, with_reason)),
            arrived,
            timed_out,
        ) is Some,
        refusals.len() > 0 ==> session_failure(phase, Some((refusals, disconnected, with_reason)), arrived, timed_out)
            == Some(refusals.last()),
        session_failure(phase, None, arrived, timed_out) is Some,
        refusals.len() == 0 && !disconnected && !(phase == SessionPhase::Connecting && !arrived && timed_out)
            ==> session_failure(phase, Some((refusals, disconnected, with_reason)), arrived, timed_out) is None,
        phase == SessionPhase::Connecting && !arrived && timed_out ==> session_failure(
            phase,
            Some((refusals, disconnected, with_reason)),
            arrived,
            timed_out,
        ) is Some,
{
}

/// The views of a link report.
pub open spec fn report_view(link: Option<&LinkReport>) -> Option<(Seq<Seq<char>>, bool, bool)> {
    match link {
        Some(r) => Some((r.refusals@.map_values(|s: String| s@), r.disconnected, r.disconnect_reason)),
        None => None,
    }
}

/// Advance an open session by one frame.  `link` is the connection's report
/// (`None` when the connection is gone), `local_player` the nickname of the
/// predicted local player once the server spawned it, and `timed_out` whether
/// fifteen seconds of connecting have passed.  Returns whether the connection
/// must be torn down; the session is then back on the title screen with the
/// failure as its error.
pub fn update_session(
    session: &mut Session,
    link: Option<&LinkReport>,
    local_player: Option<&String>,
    timed_out: bool,
) -> (teardown: bool)
    ensures
        link matches Some(r) && r.disconnected && r.disconnect_reason ==> teardown,
        link matches Some(r) && r.disconnected && old(session).phase == SessionPhase::Playing ==> teardown,
        link is Some && link->0.refusals@.len() > 0 ==> teardown && (final(session).error matches Some(e)
            && e@ == link->0.refusals@.last()@),
        link is None ==> teardown && (final(session).error matches Some(e) && e@
            == "Connection lost. Please try again."@),
        teardown ==> final(session).phase == SessionPhase::Title && final(session).error is Some,
        !teardown ==> final(session).error == old(session).error,
        link matches Some(r) && r.refusals@.len() == 0 && !r.disconnected && !(old(session).phase
            == SessionPhase::Connecting && local_player is None && timed_out) ==> !teardown,
        old(session).phase == SessionPhase::Connecting && local_player is Some && !teardown
            ==> final(session).phase == SessionPhase::Playing,
        ({
            let failure = session_failure(
                old(session).phase,
                report_view(link),
                local_player is Some,
                timed_out,
            );
            let arrived = old(session).phase == SessionPhase::Connecting && local_player is Some;
            &&& teardown == (failure is Some)
            &&& match failure {
                Some(message) => {
                    &&& final(session).phase == SessionPhase::Title
                    &&& final(session).error matches Some(e) && e@ == message
                },
                None => {
                    &&& final(session).phase == (if arrived {
                        SessionPhase::Playing
                    } else {
                        old(session).phase
                    })
                    &&& final(session).error == old(session).error
                },
            }
            &&& final(session).nickname@ == (if arrived {
                local_player->0@
            } else {
                old(session).nickname@
            })
        }),
{
    let ghost view = report_view(link);
    let mut failure: Option<String> = None;
    match link {
        Some(report) => {
            let n = report.refusals.len();
            if n > 0 {
                failure = Some(report.refusals[n - 1].clone());
            }
            if report.disconnected && (report.disconnect_reason || session.is_playing()) && failure.is_none() {
                failure = Some("Disconnected. Check the server and try again.".to_owned());
            }
        },
        None => {
            failure = Some("Connection lost. Please try again.".to_owned());
        },
    }
    proof {
        match link {
            Some(report) => {
                if report.refusals@.len() > 0 {
                    assert(view.unwrap().0.last() == report.refusals@.last()@);
                }
            },
            None => {},
        }
    }
    if session.phase == SessionPhase::Connecting {
        match local_player {
            Some(name) => {
                session.nickname = name.clone();
                session.phase = SessionPhase::Playing;
            },
            None => {
                if timed_out && failure.is_none() {
                    failure = Some("Connection timed out. Check the server and try again.".to_owned());
                }
            },
        }
    }
    match failure {
        Some(error) => {
            session.phase = SessionPhase::Title;
            session.error = Some(error);
            true
        },
        None => false,
    }
}

} // verus!
