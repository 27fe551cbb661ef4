//! What makes captured data interpretable later: the facts of one session.

use crate::clock::{self, rfc3339_string, second_stamp_string};
use crate::parse::{self, push_decimal};
use crate::px::PX_SCALE;
use crate::qty::QTY_SCALE;
use crate::text::{chars_of, joined, string_of};
use vstd::prelude::*;

verus! {

/// Bumped whenever parsing changes meaning.
pub const PARSER_VERSION: u32 = 1;

/// The revision recorded where the build does not know its own.
pub const GIT_SHA: &'static str = "unknown";

/// The date of the exchange documentation this was written against.
pub const DOCS_SPEC_DATE: &'static str = "2026-08-28";

#[derive(Debug, Clone, PartialEq, Eq)]
pub enum SessionError {
    MissingField { field: &'static str },
}

#[derive(Copy, Clone, Debug, PartialEq, Eq, Structural)]
pub enum Environment {
    Demo,
    Prod,
}

impl Environment {
    pub open spec fn label(self) -> Seq<char> {
        match self {
            Environment::Demo => "demo"@,
            Environment::Prod => "prod"@,
        }
    }

    pub fn as_str(self) -> (out: &'static str)
        ensures
            out@ == self.label(),
    {
        match self {
            Environment::Demo => "demo",
            Environment::Prod => "prod",
        }
    }
}

/// The facts of one capture session. A session without an end time did not shut
/// down cleanly.
#[derive(Clone, Debug)]
pub struct SessionMetadata {
    pub session_id: String,
    pub started_at: i128,
    pub ended_at: Option<i128>,
    pub pricing_convention: String,
    pub parser_version: u32,
    pub px_scale: i64,
    pub qty_scale: i64,
    pub environment: Environment,
    pub git_sha: String,
    pub docs_spec_date: String,
    pub orderbook_shard_size: usize,
    pub channels: Vec<String>,
    pub ws_url: String,
}

/// At most the first eight characters.
pub open spec fn short_sha(sha: Seq<char>) -> Seq<char> {
    if sha.len() <= 8 {
        sha
    } else {
        sha.take(8)
    }
}

/// The id of a session: when it started, and from what revision.
pub open spec fn session_id_text(started_at: int, sha: Seq<char>) -> Seq<char> {
    clock::second_stamp(clock::seconds_of(started_at)) + seq!['-'] + short_sha(sha)
}

/// The id of a session.
pub fn session_id_for(started_at: i128, sha: &str) -> (out: String)
    requires
        clock::in_calendar(started_at as int),
    ensures
        out@ == session_id_text(started_at as int, sha@),
{
    let chars = chars_of(sha);
    let len: usize = if chars.len() <= 8 {
        chars.len()
    } else {
        8
    };
    let short = string_of(&chars, 0, len);
    assert(short@ =~= short_sha(sha@));
    let mut out = second_stamp_string(started_at);
    out.push('-');
    out.append(short.as_str());
    assert(out@ =~= session_id_text(started_at as int, sha@));
    out
}

/// The first fact that is missing, in the order they are asked for.
pub open spec fn missing_field(
    pricing_convention: Seq<char>,
    ws_url: Seq<char>,
    channels: nat,
) -> Option<Seq<char>> {
    if pricing_convention.len() == 0 {
        Some("pricing_convention"@)
    } else if ws_url.len() == 0 {
        Some("ws_url"@)
    } else if channels == 0 {
        Some("channels"@)
    } else {
        None
    }
}

/// The decimal of a signed integer.
pub open spec fn signed_decimal(n: int) -> Seq<char> {
    if n < 0 {
        seq!['-'] + parse::decimal((-n) as nat)
    } else {
        parse::decimal(n as nat)
    }
}

fn unsigned_string(n: u64) -> (out: String)
    ensures
        out@ == parse::decimal(n as nat),
{
    let mut out = String::new();
    push_decimal(&mut out, n as u128);
    assert(out@ =~= parse::decimal(n as nat));
    out
}

fn signed_string(n: i64) -> (out: String)
    ensures
        out@ == signed_decimal(n as int),
{
    let mut out = String::new();
    if n < 0 {
        out.push('-');
        push_decimal(&mut out, (-(n as i128)) as u128);
    } else {
        push_decimal(&mut out, n as u128);
    }
    assert(out@ =~= signed_decimal(n as int));
    out
}

impl SessionMetadata {
    /// Open a session of a build that does not know its revision.
    pub fn new(
        pricing_convention: &str,
        environment: Environment,
        orderbook_shard_size: usize,
        channels: Vec<String>,
        ws_url: String,
        started_at: i128,
    ) -> (result: Result<SessionMetadata, SessionError>)
        requires
            clock::in_calendar(started_at as int),
        ensures
            match (missing_field(pricing_convention@, ws_url@, channels@.len()), result) {
                (Some(name), Err(SessionError::MissingField { field })) => field@ == name,
                (None, Ok(session)) => session.states(
                    pricing_convention@,
                    environment,
                    orderbook_shard_size,
                    channels,
                    ws_url,
                    started_at,
                    GIT_SHA@,
                ),
                _ => false,
            },
    {
        SessionMetadata::of_revision(
            pricing_convention,
            environment,
            orderbook_shard_size,
            channels,
            ws_url,
            started_at,
            GIT_SHA,
        )
    }

    /// Whether a session states the given facts and the constants of this build,
    /// and has not ended.
    pub open spec fn states(
        self,
        pricing_convention: Seq<char>,
        environment: Environment,
        orderbook_shard_size: usize,
        channels: Vec<String>,
        ws_url: String,
        started_at: i128,
        revision: Seq<char>,
    ) -> bool {
        &&& self.session_id@ == session_id_text(started_at as int, revision)
        &&& self.started_at == started_at
        &&& self.ended_at is None
        &&& self.pricing_convention@ == pricing_convention
        &&& self.parser_version == PARSER_VERSION
        &&& self.px_scale == PX_SCALE
        &&& self.qty_scale == QTY_SCALE
        &&& self.environment == environment
        &&& self.git_sha@ == revision
        &&& self.docs_spec_date@ == DOCS_SPEC_DATE@
        &&& self.orderbook_shard_size == orderbook_shard_size
        &&& self.channels == channels
        &&& self.ws_url == ws_url
    }

    /// Open a session. What would make the data uninterpretable must be stated
    /// explicitly; nothing is guessed.
    pub fn of_revision(
        pricing_convention: &str,
        environment: Environment,
        orderbook_shard_size: usize,
        channels: Vec<String>,
        ws_url: String,
        started_at: i128,
        revision: &str,
    ) -> (result: Result<SessionMetadata, SessionError>)
        requires
            clock::in_calendar(started_at as int),
        ensures
            match (missing_field(pricing_convention@, ws_url@, channels@.len()), result) {
                (Some(name), Err(SessionError::MissingField { field })) => field@ == name,
                (None, Ok(session)) => session.states(
                    pricing_convention@,
                    environment,
                    orderbook_shard_size,
                    channels,
                    ws_url,
                    started_at,
                    revision@,
                ),
                _ => false,
            },
    {
        if pricing_convention.is_empty() {
            return Err(SessionError::MissingField { field: "pricing_convention" });
        }
        if ws_url.as_str().is_empty() {
            return Err(SessionError::MissingField { field: "ws_url" });
        }
        if channels.len() == 0 {
            return Err(SessionError::MissingField { field: "channels" });
        }
        Ok(
            SessionMetadata {
                session_id: session_id_for(started_at, revision),
                started_at,
                ended_at: None,
                pricing_convention: pricing_convention.to_owned(),
                parser_version: PARSER_VERSION,
                px_scale: PX_SCALE,
                qty_scale: QTY_SCALE,
                environment,
                git_sha: revision.to_owned(),
                docs_spec_date: DOCS_SPEC_DATE.to_owned(),
                orderbook_shard_size,
                channels,
                ws_url,
            },
        )
    }

    /// Record when the session ended.
    pub fn close(&mut self, ended_at: i128)
        ensures
            *final(self) == (SessionMetadata { ended_at: Some(ended_at), ..*old(self) }),
    {
        self.ended_at = Some(ended_at);
    }

    /// The facts that go into a file's own footer.
    pub open spec fn footer(self) -> Seq<(Seq<char>, Seq<char>)> {
        seq![
            ("kalshi.session_id"@, self.session_id@),
            ("kalshi.pricing_convention"@, self.pricing_convention@),
            ("kalshi.parser_version"@, parse::decimal(self.parser_version as nat)),
            ("kalshi.px_scale"@, signed_decimal(self.px_scale as int)),
            ("kalshi.qty_scale"@, signed_decimal(self.qty_scale as int)),
            ("kalshi.environment"@, self.environment.label()),
            ("kalshi.git_sha"@, self.git_sha@),
            ("kalshi.docs_spec_date"@, self.docs_spec_date@),
            ("kalshi.orderbook_shard_size"@, parse::decimal(self.orderbook_shard_size as nat)),
            (
                "kalshi.started_at"@,
                clock::rfc3339_text(
                    clock::seconds_of(self.started_at as int),
                    clock::nanos_of(self.started_at as int),
                ),
            ),
        ]
    }

    pub fn as_key_value_pairs(&self) -> (out: Vec<(String, String)>)
        requires
            clock::in_calendar(self.started_at as int),
        ensures
            crate::rest::pair_texts(out@) == self.footer(),
    {
        let mut out: Vec<(String, String)> = Vec::new();
        out.push(("kalshi.session_id".to_owned(), self.session_id.clone()));
        out.push(("kalshi.pricing_convention".to_owned(), self.pricing_convention.clone()));
        out.push(("kalshi.parser_version".to_owned(), unsigned_string(self.parser_version as u64)));
        out.push(("kalshi.px_scale".to_owned(), signed_string(self.px_scale)));
        out.push(("kalshi.qty_scale".to_owned(), signed_string(self.qty_scale)));
        out.push(("kalshi.environment".to_owned(), self.environment.as_str().to_owned()));
        out.push(("kalshi.git_sha".to_owned(), self.git_sha.clone()));
        out.push(("kalshi.docs_spec_date".to_owned(), self.docs_spec_date.clone()));
        out.push(
            (
                "kalshi.orderbook_shard_size".to_owned(),
                unsigned_string(self.orderbook_shard_size as u64),
            ),
        );
        out.push(("kalshi.started_at".to_owned(), rfc3339_string(self.started_at)));
        assert(crate::rest::pair_texts(out@) =~= self.footer());
        out
    }

    /// The name of the session file that stands in every partition.
    pub fn sidecar_filename(&self) -> (out: String)
        ensures
            out@ == "_session-"@ + self.session_id@ + ".json"@,
    {
        joined(joined("_session-", self.session_id.as_str()).as_str(), ".json")
    }
}

/// A session is opened exactly where the pricing convention, the address and the channels
/// are all given, and then states them, the start, the revision and the scales of this
/// build; else the first that is missing is named.
pub proof fn law_a_session_states_its_facts(
    pricing_convention: &str,
    environment: Environment,
    orderbook_shard_size: usize,
    channels: Vec<String>,
    ws_url: String,
    started_at: i128,
    revision: &str,
    result: Result<SessionMetadata, SessionError>,
)
    requires
        call_ensures(
            SessionMetadata::of_revision,
            (
                pricing_convention,
                environment,
                orderbook_shard_size,
                channels,
                ws_url,
                started_at,
                revision,
            ),
            result,
        ),
    ensures
        result is Ok <==> pricing_convention@.len() > 0 && ws_url@.len() > 0 && channels@.len() > 0,
        result matches Err(SessionError::MissingField { field }) ==> {
            &&& pricing_convention@.len() == 0 ==> field@ == "pricing_convention"@
            &&& pricing_convention@.len() > 0 && ws_url@.len() == 0 ==> field@ == "ws_url"@
            &&& pricing_convention@.len() > 0 && ws_url@.len() > 0 ==> field@ == "channels"@
        },
        result matches Ok(session) ==> {
            &&& session.started_at == started_at && session.ended_at is None
            &&& session.pricing_convention@ == pricing_convention@
            &&& session.environment == environment
            &&& session.orderbook_shard_size == orderbook_shard_size
            &&& session.channels == channels && session.ws_url == ws_url
            &&& session.git_sha@ == revision@
            &&& session.px_scale == 1_000_000 && session.qty_scale == 100
            &&& session.session_id@ == clock::second_stamp(clock::seconds_of(started_at as int))
                + seq!['-'] + (if revision@.len() <= 8 {
                revision@
            } else {
                revision@.take(8)
            })
        },
{
}

/// A file's footer tells the session it belongs to: each fact under its name, numbers by
/// their numerals.
pub proof fn law_a_footer_tells_its_session(session: SessionMetadata)
    ensures
        ({
            let footer = session.footer();
            &&& footer.len() == 10
            &&& footer[0] == ("kalshi.session_id"@, session.session_id@)
            &&& footer[1] == ("kalshi.pricing_convention"@, session.pricing_convention@)
            &&& footer[2].0 == "kalshi.parser_version"@ && parse::digits_value(footer[2].1)
                == session.parser_version
            &&& footer[3].0 == "kalshi.px_scale"@
            &&& session.px_scale >= 0 ==> parse::digits_value(footer[3].1) == session.px_scale
            &&& footer[4].0 == "kalshi.qty_scale"@
            &&& session.qty_scale >= 0 ==> parse::digits_value(footer[4].1) == session.qty_scale
            &&& footer[5].0 == "kalshi.environment"@
            &&& session.environment is Demo ==> footer[5].1 == "demo"@
            &&& session.environment is Prod ==> footer[5].1 == "prod"@
            &&& footer[6] == ("kalshi.git_sha"@, session.git_sha@)
            &&& footer[7] == ("kalshi.docs_spec_date"@, session.docs_spec_date@)
            &&& footer[8].0 == "kalshi.orderbook_shard_size"@ && parse::digits_value(footer[8].1)
                == session.orderbook_shard_size
            &&& footer[9].0 == "kalshi.started_at"@ && footer[9].1 == clock::rfc3339_text(
                clock::seconds_of(session.started_at as int),
                clock::nanos_of(session.started_at as int),
            )
        }),
{
    let none = Seq::<char>::empty();
    parse::law_digits_are_read_as_written(none, '0', session.parser_version as nat);
    parse::law_digits_are_read_as_written(none, '0', session.orderbook_shard_size as nat);
    if session.px_scale >= 0 {
        parse::law_digits_are_read_as_written(none, '0', session.px_scale as nat);
    }
    if session.qty_scale >= 0 {
        parse::law_digits_are_read_as_written(none, '0', session.qty_scale as nat);
    }
}

/// The session's own file is named by its id.
pub proof fn law_a_session_file_is_named_by_its_session(session: SessionMetadata, name: String)
    requires
        call_ensures(SessionMetadata::sidecar_filename, (&session,), name),
    ensures
        name@ == "_session-"@ + session.session_id@ + ".json"@,
{
}

/// A session that ends keeps everything but its end.
pub proof fn law_an_ended_session_keeps_its_facts(ended_at: i128)
    ensures
        forall|session: &mut SessionMetadata| #[trigger]
            call_ensures(SessionMetadata::close, (session, ended_at), ()) ==> {
                &&& final(session).ended_at == Some(ended_at)
                &&& *final(session) == (SessionMetadata {
                    ended_at: final(session).ended_at,
                    ..*session
                })
            },
{
}

} // verus!
