//! What a speed test is told and what it tells: the answer of the server list, the updates that
//! a run sends, and its result.

use crate::binary64::Binary64;
use vstd::prelude::*;
use vstd::string::*;

verus! {

/// A place on the map.
#[derive(Debug)]
pub struct Location {
    /// The city.
    pub city: String,
    /// The country.
    pub country: String,
}

/// A location, by the characters of its names.
pub struct LocationView {
    pub city: Seq<char>,
    pub country: Seq<char>,
}

impl View for Location {
    type V = LocationView;

    open spec fn view(&self) -> LocationView {
        LocationView { city: self.city@, country: self.country@ }
    }
}

impl Clone for Location {
    fn clone(&self) -> (r: Self)
        ensures
            r == *self,
    {
        Location { city: self.city.clone(), country: self.country.clone() }
    }
}

impl LocationView {
    /// City and country, with a comma between them.
    pub open spec fn label(self) -> Seq<char> {
        self.city + ", "@ + self.country
    }
}

impl Location {
    /// City and country, with a comma between them.
    pub fn label(&self) -> (r: String)
        ensures
            r@ == self@.label(),
    {
        let mut r = self.city.clone();
        r.append(", ");
        r.append(self.country.as_str());
        r
    }
}

/// A test server.
#[derive(Debug)]
pub struct Target {
    /// The address to download from.
    pub url: String,
    /// Where the server stands.
    pub location: Location,
}

/// A test server, by the characters of its names.
pub struct TargetView {
    pub url: Seq<char>,
    pub location: LocationView,
}

impl View for Target {
    type V = TargetView;

    open spec fn view(&self) -> TargetView {
        TargetView { url: self.url@, location: self.location@ }
    }
}

impl Clone for Target {
    fn clone(&self) -> (r: Self)
        ensures
            r == *self,
    {
        Target { url: self.url.clone(), location: self.location.clone() }
    }
}

/// The answer of the server list: where the client is, and which servers are near.
#[derive(Debug)]
pub struct ApiResponse {
    /// Where the client is.
    pub client: Location,
    /// The servers, nearest first.
    pub targets: Vec<Target>,
}

/// The answer of the server list, by the characters of its names.
pub struct ApiView {
    pub client: LocationView,
    pub targets: Seq<TargetView>,
}

impl View for ApiResponse {
    type V = ApiView;

    open spec fn view(&self) -> ApiView {
        ApiView { client: self.client@, targets: self.targets@.map_values(|t: Target| t@) }
    }
}

/// The outcome of a finished test.
#[derive(Debug)]
pub struct TestResult {
    /// The download speed, in megabits per second.
    pub speed_mbps: Binary64,
    /// The unloaded latency, in milliseconds.
    pub latency_ms: u64,
    /// How many bytes were received.
    pub bytes: u64,
    /// Where the first test server stands.
    pub server: String,
    /// Where the client is.
    pub client: String,
}

/// The outcome of a finished test, by the characters of its names.
pub struct ResultView {
    pub speed_mbps: Binary64,
    pub latency_ms: u64,
    pub bytes: u64,
    pub server: Seq<char>,
    pub client: Seq<char>,
}

impl View for TestResult {
    type V = ResultView;

    open spec fn view(&self) -> ResultView {
        ResultView {
            speed_mbps: self.speed_mbps,
            latency_ms: self.latency_ms,
            bytes: self.bytes,
            server: self.server@,
            client: self.client@,
        }
    }
}

impl Clone for TestResult {
    fn clone(&self) -> (r: Self)
        ensures
            r == *self,
    {
        TestResult {
            speed_mbps: self.speed_mbps,
            latency_ms: self.latency_ms,
            bytes: self.bytes,
            server: self.server.clone(),
            client: self.client.clone(),
        }
    }
}

/// One reading of the download speed.
#[derive(Clone, Copy, Debug)]
pub struct Sample {
    /// The speed, in megabits per second.
    pub speed_mbps: Binary64,
    /// How long the download has been running, in nanoseconds.
    pub elapsed: u128,
}

/// What a run tells the outside while it goes on.
#[derive(Debug)]
pub enum Update {
    /// A new phase has begun.
    Phase(&'static str),
    /// The speed was read.
    Sample(Sample),
    /// The run has come to its end with this result.
    Finished(TestResult),
    /// The run has broken off for this reason.
    Failed(String),
}

impl Clone for Update {
    fn clone(&self) -> (r: Self)
        ensures
            r == *self,
    {
        match self {
            Update::Phase(phase) => Update::Phase(phase),
            Update::Sample(sample) => Update::Sample(*sample),
            Update::Finished(result) => Update::Finished(result.clone()),
            Update::Failed(error) => Update::Failed(error.clone()),
        }
    }
}

/// An update, by the characters of its texts.
pub enum UpdateView {
    Phase(Seq<char>),
    Sample(Sample),
    Finished(ResultView),
    Failed(Seq<char>),
}

impl View for Update {
    type V = UpdateView;

    open spec fn view(&self) -> UpdateView {
        match self {
            Update::Phase(phase) => UpdateView::Phase(phase@),
            Update::Sample(sample) => UpdateView::Sample(*sample),
            Update::Finished(result) => UpdateView::Finished(result@),
            Update::Failed(error) => UpdateView::Failed(error@),
        }
    }
}

impl UpdateView {
    /// Whether no further update follows this one.
    pub open spec fn is_last(self) -> bool {
        self is Finished || self is Failed
    }
}

/// What a run can fail at. Without a script or a token it still goes on.
#[derive(Clone, Copy, Debug, PartialEq, Eq, Structural)]
pub enum Fault {
    /// The client for the requests could not be made.
    NoClient,
    /// The page names no application script.
    NoScript,
    /// The application script holds no token.
    NoToken,
    /// The server list could not be reached.
    Unreachable,
    /// The server list answered with an error status.
    Rejected,
    /// The answer of the server list could not be read.
    Unexpected,
    /// The server list named no server.
    NoServers,
    /// The test server did not answer a latency probe.
    ProbeUnanswered,
    /// The test server answered a latency probe with an error status.
    ProbeRejected,
    /// No speed could be read.
    NoData,
}

impl Fault {
    /// The reason in words.
    pub open spec fn text(self) -> Seq<char> {
        match self {
            Fault::NoClient => "could not create the HTTP client"@,
            Fault::NoScript => "could not find the Fast.com application script"@,
            Fault::NoToken => "could not find the Fast.com API token"@,
            Fault::Unreachable => "could not reach Fast.com"@,
            Fault::Rejected => "Fast.com rejected the test request"@,
            Fault::Unexpected => "Fast.com returned an unexpected response"@,
            Fault::NoServers => "Fast.com returned no test servers"@,
            Fault::ProbeUnanswered => "the test server did not respond"@,
            Fault::ProbeRejected => "the test server rejected the latency probe"@,
            Fault::NoData => "the test completed without receiving data"@,
        }
    }

    /// The reason in words.
    pub fn message(self) -> (r: &'static str)
        ensures
            r@ == self.text(),
    {
        match self {
            Fault::NoClient => "could not create the HTTP client",
            Fault::NoScript => "could not find the Fast.com application script",
            Fault::NoToken => "could not find the Fast.com API token",
            Fault::Unreachable => "could not reach Fast.com",
            Fault::Rejected => "Fast.com rejected the test request",
            Fault::Unexpected => "Fast.com returned an unexpected response",
            Fault::NoServers => "Fast.com returned no test servers",
            Fault::ProbeUnanswered => "the test server did not respond",
            Fault::ProbeRejected => "the test server rejected the latency probe",
            Fault::NoData => "the test completed without receiving data",
        }
    }
}

/// A place is written as its city, a comma and a space, and its country.
pub proof fn lemma_label(place: LocationView)
    ensures
        place.city.is_prefix_of(place.label()),
        place.country.is_suffix_of(place.label()),
        place.label().len() == place.city.len() + 2 + place.country.len(),
        place.label()[place.city.len() as int] == ',',
        place.label()[place.city.len() as int + 1] == ' ',
{
    reveal_strlit(", ");
    let label = place.label();
    let n = place.city.len() as int;
    assert(place.city =~= label.subrange(0, n));
    assert(place.country =~= label.subrange(n + 2, label.len() as int));
}

/// Nothing follows a result or a failure, and something follows all else.
pub proof fn lemma_last_update(text: Seq<char>, sample: Sample, result: ResultView)
    ensures
        UpdateView::Finished(result).is_last(),
        UpdateView::Failed(text).is_last(),
        !UpdateView::Phase(text).is_last(),
        !UpdateView::Sample(sample).is_last(),
{
}

/// Every reason has words of its own.
pub proof fn lemma_words_tell_reasons_apart(a: Fault, b: Fault)
    ensures
        a.text() == b.text() ==> a == b,
{
    reveal_strlit("could not create the HTTP client");
    reveal_strlit("could not find the Fast.com application script");
    reveal_strlit("could not find the Fast.com API token");
    reveal_strlit("could not reach Fast.com");
    reveal_strlit("Fast.com rejected the test request");
    reveal_strlit("Fast.com returned an unexpected response");
    reveal_strlit("Fast.com returned no test servers");
    reveal_strlit("the test server did not respond");
    reveal_strlit("the test server rejected the latency probe");
    reveal_strlit("the test completed without receiving data");
    assert("could not create the HTTP client"@.len() == 32);
    assert("could not find the Fast.com application script"@.len() == 46);
    assert("could not find the Fast.com API token"@.len() == 37);
    assert("could not reach Fast.com"@.len() == 24);
    assert("Fast.com rejected the test request"@.len() == 34);
    assert("Fast.com returned an unexpected response"@.len() == 40);
    assert("Fast.com returned no test servers"@.len() == 33);
    assert("the test server did not respond"@.len() == 31);
    assert("the test server rejected the latency probe"@.len() == 42);
    assert("the test completed without receiving data"@.len() == 41);
    if a.text() == b.text() {
        assert(a.text().len() == b.text().len());
    }
}

} // verus!
