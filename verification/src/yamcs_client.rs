//! The Yamcs HTTP client: configuration, request addresses, command-name
//! resolution against the mission database, argument assembly and the
//! checks made on archived packets. The requests themselves are sent by the
//! application; this module decides what they are and what their answers mean.
use vstd::prelude::*;
use crate::error::YamcsTcError;
use crate::json::{JsonValue, JsonView, json_get, json_str, json_u64, items_view, entries_view,
    lemma_items_view_index, lemma_entries_view_index, lemma_items_view_len, lemma_entries_view_len};
use crate::text::{
    after_last, chars_of, concat, contains, contains_seq, copy_string, decimal, escape_slashes,
    escape_slashes_exec, is_blank, last_segment, leading_slash, str_eq, strip_end, strip_start,
    trim, trim_end_char, trim_start_char, trimmed, u64_to_string, with_leading_slash, string_of,
    chars_eq,
};

verus! {

broadcast use vstd::string::group_string_axioms;

// ---------------------------------------------------------------------------
// Configuration
// ---------------------------------------------------------------------------

#[derive(Debug)]
pub struct YamcsConfig {
    pub base_url: String,
    pub instance: String,
    pub processor: String,
    pub username: String,
    pub password: String,
    pub origin: String,
}

/// The first configuration problem, if any: a blank base URL, instance,
/// processor or origin, checked in that order.
pub open spec fn config_problem(c: YamcsConfig) -> Option<Seq<char>> {
    if trimmed(c.base_url@).len() == 0 {
        Some("base_url cannot be empty"@)
    } else if trimmed(c.instance@).len() == 0 {
        Some("instance cannot be empty"@)
    } else if trimmed(c.processor@).len() == 0 {
        Some("processor cannot be empty"@)
    } else if trimmed(c.origin@).len() == 0 {
        Some("origin cannot be empty"@)
    } else {
        None
    }
}

/// A configuration is valid exactly when its base URL, instance, processor
/// and origin each hold a character other than whitespace; the user name
/// and password are not checked.
pub proof fn law_config_valid_when_fields_given(c: YamcsConfig, d: YamcsConfig)
    ensures
        config_problem(c) is None <==> !crate::text::all_white(c.base_url@) && !crate::text::all_white(c.instance@)
            && !crate::text::all_white(c.processor@) && !crate::text::all_white(c.origin@),
        c.base_url@ == d.base_url@ && c.instance@ == d.instance@ && c.processor@ == d.processor@
            && c.origin@ == d.origin@ ==> config_problem(c) == config_problem(d),
{
    crate::text::law_blank_is_all_whitespace(c.base_url@);
    crate::text::law_blank_is_all_whitespace(c.instance@);
    crate::text::law_blank_is_all_whitespace(c.processor@);
    crate::text::law_blank_is_all_whitespace(c.origin@);
}

impl YamcsConfig {
    pub fn validate(&self) -> (r: Result<(), YamcsTcError>)
        ensures
            match config_problem(*self) {
                None => r is Ok,
                Some(m) => r matches Err(YamcsTcError::Config(x)) && x@ == m,
            },
    {
        if is_blank(self.base_url.as_str()) {
            return Err(YamcsTcError::Config(String::from_str("base_url cannot be empty")));
        }
        if is_blank(self.instance.as_str()) {
            return Err(YamcsTcError::Config(String::from_str("instance cannot be empty")));
        }
        if is_blank(self.processor.as_str()) {
            return Err(YamcsTcError::Config(String::from_str("processor cannot be empty")));
        }
        if is_blank(self.origin.as_str()) {
            return Err(YamcsTcError::Config(String::from_str("origin cannot be empty")));
        }
        Ok(())
    }

}

/// Two configurations with the same settings, field for field.
pub open spec fn same_settings(a: YamcsConfig, b: YamcsConfig) -> bool {
    &&& a.base_url@ == b.base_url@
    &&& a.instance@ == b.instance@
    &&& a.processor@ == b.processor@
    &&& a.username@ == b.username@
    &&& a.password@ == b.password@
    &&& a.origin@ == b.origin@
}

impl YamcsConfig {
    /// A copy of the configuration, field for field.
    pub fn copy(&self) -> (r: YamcsConfig)
        ensures
            r.base_url@ == self.base_url@,
            r.instance@ == self.instance@,
            r.processor@ == self.processor@,
            r.username@ == self.username@,
            r.password@ == self.password@,
            r.origin@ == self.origin@,
            config_problem(r) == config_problem(*self),
    {
        YamcsConfig {
            base_url: copy_string(&self.base_url),
            instance: copy_string(&self.instance),
            processor: copy_string(&self.processor),
            username: copy_string(&self.username),
            password: copy_string(&self.password),
            origin: copy_string(&self.origin),
        }
    }
}

// ---------------------------------------------------------------------------
// The client
// ---------------------------------------------------------------------------

#[verifier::external_type_specification]
#[verifier::external_body]
pub struct ExHttpClient(reqwest::Client);

/// Text that `HeaderValue::from_static` accepts: visible ASCII, space and tab.
pub open spec fn header_text(s: Seq<char>) -> bool {
    forall|i: int| 0 <= i < s.len() ==> (' ' <= #[trigger] s[i] && s[i] <= '~') || s[i] == '\t'
}

/// The `Accept` and `Content-Type` values among the default headers that a
/// reqwest client sends with every request (those its builder was given by
/// `ClientBuilder::default_headers`).
pub uninterp spec fn client_default_headers(client: reqwest::Client) -> (Seq<char>, Seq<char>);

/// `reqwest::Client::builder()` with the default headers `Accept: accept`
/// and `Content-Type: content_type`, then `build()`; a failure is given as
/// the error's displayed text. Stated: a client that is built sends those two
/// headers. Whether the build succeeds is not stated: reqwest documents it
/// as failing when a TLS backend or the system resolver configuration
/// cannot be loaded.
#[verifier::external_body]
fn build_http_client(accept: &'static str, content_type: &'static str) -> (r: Result<reqwest::Client, String>)
    requires
        header_text(accept@),
        header_text(content_type@),
    ensures
        r matches Ok(c) ==> client_default_headers(c) == (accept@, content_type@),
{
    let mut headers = reqwest::header::HeaderMap::new();
    headers.insert(reqwest::header::ACCEPT, reqwest::header::HeaderValue::from_static(accept));
    headers.insert(reqwest::header::CONTENT_TYPE, reqwest::header::HeaderValue::from_static(content_type));
    reqwest::Client::builder().default_headers(headers).build().map_err(|e| e.to_string())
}

/// A Yamcs client: a valid configuration and the HTTP client that the
/// application sends its requests with.
pub struct YamcsClient {
    cfg: YamcsConfig,
    http: reqwest::Client,
}

impl YamcsClient {
    pub closed spec fn spec_config(&self) -> YamcsConfig {
        self.cfg
    }

    /// The HTTP client that the client holds.
    pub closed spec fn spec_http(&self) -> reqwest::Client {
        self.http
    }

    /// Fails with the configuration error of [`YamcsConfig::validate`] on an
    /// invalid configuration, or with an HTTP error when the HTTP client
    /// cannot be built; otherwise holds `cfg` and an HTTP client whose
    /// `Accept` and `Content-Type` headers are both `application/json`.
    pub fn new(cfg: YamcsConfig) -> (r: Result<Self, YamcsTcError>)
        ensures
            r matches Ok(c) ==> client_default_headers(c.spec_http()) == (
                "application/json"@,
                "application/json"@,
            ),
            config_problem(cfg) is Some ==> (r matches Err(YamcsTcError::Config(x))
                && x@ == config_problem(cfg)->0),
            r matches Ok(c) ==> c.spec_config() == cfg && config_problem(cfg) is None,
            r matches Err(e) ==> ((e is Config && config_problem(cfg) is Some) || e is Http),
    {
        cfg.validate()?;
        proof {
            reveal_strlit("application/json");
        }
        match build_http_client("application/json", "application/json") {
            Ok(http) => Ok(Self { cfg, http }),
            Err(e) => Err(YamcsTcError::Http(e)),
        }
    }

    pub fn config(&self) -> (r: &YamcsConfig)
        ensures
            *r == self.spec_config(),
    {
        &self.cfg
    }

    /// The HTTP client the requests are sent with: the one built by
    /// [`YamcsClient::new`] and held since.
    pub fn http(&self) -> (r: &reqwest::Client)
        ensures
            *r == self.spec_http(),
    {
        &self.http
    }
}

// ---------------------------------------------------------------------------
// Request addresses
// ---------------------------------------------------------------------------

/// The base URL without trailing slashes.
pub open spec fn base(c: YamcsConfig) -> Seq<char> {
    strip_end(c.base_url@, '/')
}

pub open spec fn mdb_commands_url_spec(c: YamcsConfig) -> Seq<char> {
    base(c) + "/api/mdb/"@ + c.instance@ + "/commands"@
}

pub open spec fn mdb_command_url_spec(c: YamcsConfig, command_name: Seq<char>) -> Seq<char> {
    base(c) + "/api/mdb/"@ + c.instance@ + "/commands"@ + with_leading_slash(command_name)
}

pub open spec fn issue_command_url_spec(c: YamcsConfig, command_name: Seq<char>) -> Seq<char> {
    base(c) + "/api/processors/"@ + c.instance@ + "/"@ + c.processor@ + "/commands"@
        + with_leading_slash(command_name)
}

pub open spec fn packets_url_spec(c: YamcsConfig, limit: nat) -> Seq<char> {
    base(c) + "/api/archive/"@ + c.instance@ + "/packets?order=desc&limit="@ + decimal(limit)
}

pub open spec fn packages_url_spec(c: YamcsConfig) -> Seq<char> {
    base(c) + "/api/archive/"@ + c.instance@ + "/packets"@
}

pub open spec fn packets_by_name_url_spec(
    c: YamcsConfig,
    packet_name: Seq<char>,
    gentime: Seq<char>,
    seqnum: nat,
) -> Seq<char> {
    base(c) + "/api/archive/"@ + c.instance@ + "/packets/"@ + packet_name + "/"@ + gentime + "/"@
        + decimal(seqnum) + ":extract"@
}

pub open spec fn container_url_spec(c: YamcsConfig, container_path: Seq<char>) -> Seq<char> {
    base(c) + "/api/mdb/"@ + c.instance@ + "/containers/"@ + strip_start(container_path, '/')
}

impl YamcsClient {
    fn base_url(&self) -> (r: String)
        ensures
            r@ == base(self.cfg),
    {
        trim_end_char(self.cfg.base_url.as_str(), '/')
    }

    pub fn mdb_commands_url(&self) -> (r: String)
        ensures
            r@ == mdb_commands_url_spec(self.spec_config()),
    {
        let mut u = self.base_url();
        u.append("/api/mdb/");
        u.append(self.cfg.instance.as_str());
        u.append("/commands");
        u
    }

    pub fn mdb_command_url(&self, command_name: &str) -> (r: String)
        ensures
            r@ == mdb_command_url_spec(self.spec_config(), command_name@),
    {
        let mut u = self.base_url();
        u.append("/api/mdb/");
        u.append(self.cfg.instance.as_str());
        u.append("/commands");
        let n = leading_slash(command_name);
        u.append(n.as_str());
        u
    }

    pub fn issue_command_url(&self, command_name: &str) -> (r: String)
        ensures
            r@ == issue_command_url_spec(self.spec_config(), command_name@),
    {
        let mut u = self.base_url();
        u.append("/api/processors/");
        u.append(self.cfg.instance.as_str());
        u.append("/");
        u.append(self.cfg.processor.as_str());
        u.append("/commands");
        let n = leading_slash(command_name);
        u.append(n.as_str());
        u
    }

    pub fn packets_url(&self, limit: usize) -> (r: String)
        ensures
            r@ == packets_url_spec(self.spec_config(), limit as nat),
    {
        let mut u = self.base_url();
        u.append("/api/archive/");
        u.append(self.cfg.instance.as_str());
        u.append("/packets?order=desc&limit=");
        let l = u64_to_string(limit as u64);
        u.append(l.as_str());
        u
    }

    /// The archive listing of all packets.
    pub fn packages_url(&self) -> (r: String)
        ensures
            r@ == packages_url_spec(self.spec_config()),
    {
        let mut u = self.base_url();
        u.append("/api/archive/");
        u.append(self.cfg.instance.as_str());
        u.append("/packets");
        u
    }

    pub fn packets_by_name_url(&self, packet_name: &str, gentime: &str, seqnum: usize) -> (r: String)
        ensures
            r@ == packets_by_name_url_spec(self.spec_config(), packet_name@, gentime@, seqnum as nat),
    {
        let mut u = self.base_url();
        u.append("/api/archive/");
        u.append(self.cfg.instance.as_str());
        u.append("/packets/");
        u.append(packet_name);
        u.append("/");
        u.append(gentime);
        u.append("/");
        let s = u64_to_string(seqnum as u64);
        u.append(s.as_str());
        u.append(":extract");
        u
    }

    pub fn container_url(&self, container_path: &str) -> (r: String)
        ensures
            r@ == container_url_spec(self.spec_config(), container_path@),
    {
        let mut u = self.base_url();
        u.append("/api/mdb/");
        u.append(self.cfg.instance.as_str());
        u.append("/containers/");
        let p = trim_start_char(container_path, '/');
        u.append(p.as_str());
        u
    }
}

/// A base URL written with a trailing slash addresses the same requests as
/// the one without it.
pub proof fn law_base_url_trailing_slash(c: YamcsConfig, d: YamcsConfig)
    requires
        d.base_url@ == c.base_url@.push('/'),
    ensures
        base(d) == base(c),
{
    assert(d.base_url@.drop_last() =~= c.base_url@);
}

/// A command name addresses the same command with or without its leading
/// slash, for the MDB and for issuing.
pub proof fn law_command_name_slash(c: YamcsConfig, name: Seq<char>)
    ensures
        mdb_command_url_spec(c, with_leading_slash(name)) == mdb_command_url_spec(c, name),
        issue_command_url_spec(c, with_leading_slash(name)) == issue_command_url_spec(c, name),
{
    assert((seq!['/'] + name)[0] == '/');
}

/// A container path addresses the same container with or without leading
/// slashes.
pub proof fn law_container_path_slash(c: YamcsConfig, path: Seq<char>)
    ensures
        container_url_spec(c, seq!['/'] + path) == container_url_spec(c, path),
{
    assert((seq!['/'] + path).drop_first() =~= path);
}

// ---------------------------------------------------------------------------
// Command-name resolution
// ---------------------------------------------------------------------------

/// A command as the MDB listing describes it.
#[derive(Debug)]
pub struct CommandInfo {
    pub name: Option<String>,
    pub qualified_name: Option<String>,
    pub short_description: Option<String>,
}

/// A packet's identity in the archive.
#[derive(Debug)]
pub struct PacketId {
    pub name: Option<String>,
}

/// A packet as the archive listing describes it.
#[derive(Debug)]
pub struct PacketInfo {
    pub id: Option<PacketId>,
    pub generation_time: Option<String>,
    pub sequence_number: Option<u32>,
}

/// `o == Some(s)` for an optional string.
pub open spec fn opt_is(o: Option<String>, s: Seq<char>) -> bool {
    o matches Some(x) && x@ == s
}

fn opt_str_is(o: &Option<String>, s: &str) -> (r: bool)
    ensures
        r == opt_is(*o, s@),
{
    match o {
        Some(x) => str_eq(x.as_str(), s),
        None => false,
    }
}

/// The index of the first element of `s` that satisfies `p`.
pub open spec fn first_where<A>(s: Seq<A>, p: spec_fn(A) -> bool) -> Option<int>
    decreases s.len(),
{
    if s.len() == 0 {
        None
    } else {
        match first_where(s.drop_last(), p) {
            Some(i) => Some(i),
            None => if p(s.last()) {
                Some(s.len() - 1)
            } else {
                None
            },
        }
    }
}

pub(crate) proof fn lemma_first_where_step<A>(s: Seq<A>, p: spec_fn(A) -> bool, i: int)
    requires
        0 <= i < s.len(),
        first_where(s.take(i), p) is None,
    ensures
        first_where(s.take(i + 1), p) == (if p(s[i]) { Some(i) } else { None::<int> }),
{
    assert(s.take(i + 1).drop_last() =~= s.take(i));
}

pub(crate) proof fn lemma_first_where_extend<A>(s: Seq<A>, p: spec_fn(A) -> bool, j: int, k: int)
    requires
        0 <= j <= k <= s.len(),
        first_where(s.take(j), p) is Some,
    ensures
        first_where(s.take(k), p) == first_where(s.take(j), p),
    decreases k - j,
{
    if k > j {
        lemma_first_where_extend(s, p, j, k - 1);
        assert(s.take(k).drop_last() =~= s.take(k - 1));
    }
}

pub(crate) proof fn lemma_first_where_found<A>(s: Seq<A>, p: spec_fn(A) -> bool, i: int)
    requires
        0 <= i < s.len(),
        first_where(s.take(i), p) is None,
        p(s[i]),
    ensures
        first_where(s, p) == Some(i),
{
    lemma_first_where_step(s, p, i);
    lemma_first_where_extend(s, p, i + 1, s.len() as int);
    assert(s.take(s.len() as int) =~= s);
}

/// The address that resolution answers for a listed command: its qualified
/// name, else `/` and its name, else `fallback`.
pub open spec fn answer_for(c: CommandInfo, fallback: Seq<char>) -> Seq<char> {
    match c.qualified_name {
        Some(q) => q@,
        None => match c.name {
            Some(n) => "/"@ + n@,
            None => fallback,
        },
    }
}

pub open spec fn named(ns: Seq<char>) -> spec_fn(CommandInfo) -> bool {
    |c: CommandInfo| opt_is(c.name, ns)
}

pub open spec fn qualified_as(rq: Seq<char>, ws: Seq<char>) -> spec_fn(CommandInfo) -> bool {
    |c: CommandInfo| opt_is(c.qualified_name, rq) || opt_is(c.qualified_name, ws)
}

/// A command whose qualified name ends in the segment `ns`, or whose name is `ns`.
pub open spec fn trailing_match(c: CommandInfo, ns: Seq<char>) -> bool {
    (c.qualified_name matches Some(q) && after_last(q@, '/') == ns) || opt_is(c.name, ns)
}

pub open spec fn trailing(ns: Seq<char>) -> spec_fn(CommandInfo) -> bool {
    |c: CommandInfo| trailing_match(c, ns)
}

/// The outcome of resolving a requested command name.
pub enum NameResolution {
    Found(Seq<char>),
    Empty,
    Ambiguous,
    NotFound,
}

/// How a requested name resolves against the MDB listing: a match on the
/// plain name first, then on the qualified name (with or without a leading
/// slash), then on the last segment of the qualified name, which must be
/// unique.
pub open spec fn resolution(requested: Seq<char>, cmds: Seq<CommandInfo>) -> NameResolution {
    let rq = trimmed(requested);
    let ns = strip_start(rq, '/');
    let ws = with_leading_slash(rq);
    if rq.len() == 0 {
        NameResolution::Empty
    } else if let Some(i) = first_where(cmds, named(ns)) {
        NameResolution::Found(answer_for(cmds[i], ws))
    } else if let Some(i) = first_where(cmds, qualified_as(rq, ws)) {
        NameResolution::Found(answer_for(cmds[i], ws))
    } else {
        let t = cmds.filter(trailing(ns));
        if t.len() == 1 {
            NameResolution::Found(answer_for(t[0], ws))
        } else if t.len() > 1 {
            NameResolution::Ambiguous
        } else {
            NameResolution::NotFound
        }
    }
}

fn answer_for_exec(c: &CommandInfo, fallback: &String) -> (r: String)
    ensures
        r@ == answer_for(*c, fallback@),
{
    match &c.qualified_name {
        Some(q) => copy_string(q),
        None => match &c.name {
            Some(n) => concat("/", n.as_str()),
            None => copy_string(fallback),
        },
    }
}

fn trailing_match_exec(c: &CommandInfo, ns: &str) -> (r: bool)
    ensures
        r == trailing_match(*c, ns@),
{
    let q_matches = match &c.qualified_name {
        Some(q) => {
            let qc = chars_of(q.as_str());
            let seg = last_segment(qc.as_slice(), '/');
            let nc = chars_of(ns);
            chars_eq(seg.as_slice(), nc.as_slice())
        },
        None => false,
    };
    q_matches || opt_str_is(&c.name, ns)
}

proof fn lemma_first_where_absent<A>(s: Seq<A>, p: spec_fn(A) -> bool)
    requires
        forall|j: int| 0 <= j < s.len() ==> !p(#[trigger] s[j]),
    ensures
        first_where(s, p) is None,
    decreases s.len(),
{
    if s.len() > 0 {
        assert forall|j: int| 0 <= j < s.drop_last().len() implies !p(#[trigger] s.drop_last()[j]) by {
            assert(s.drop_last()[j] == s[j]);
        }
        lemma_first_where_absent(s.drop_last(), p);
    }
}

proof fn lemma_filter_none<A>(s: Seq<A>, p: spec_fn(A) -> bool)
    requires
        forall|j: int| 0 <= j < s.len() ==> !p(#[trigger] s[j]),
    ensures
        s.filter(p) =~= Seq::<A>::empty(),
    decreases s.len(),
{
    reveal_with_fuel(Seq::<_>::filter, 1);
    if s.len() > 0 {
        assert forall|j: int| 0 <= j < s.drop_last().len() implies !p(#[trigger] s.drop_last()[j]) by {
            assert(s.drop_last()[j] == s[j]);
        }
        lemma_filter_none(s.drop_last(), p);
    }
}

proof fn lemma_filter_single<A>(s: Seq<A>, p: spec_fn(A) -> bool, i: int)
    requires
        0 <= i < s.len(),
        p(s[i]),
        forall|j: int| 0 <= j < s.len() && j != i ==> !p(#[trigger] s[j]),
    ensures
        s.filter(p) =~= seq![s[i]],
    decreases s.len(),
{
    reveal_with_fuel(Seq::<_>::filter, 1);
    let init = s.drop_last();
    if i == s.len() - 1 {
        assert forall|j: int| 0 <= j < init.len() implies !p(#[trigger] init[j]) by {
            assert(init[j] == s[j]);
        }
        lemma_filter_none(init, p);
    } else {
        assert forall|j: int| 0 <= j < init.len() && j != i implies !p(#[trigger] init[j]) by {
            assert(init[j] == s[j]);
        }
        assert(init[i] == s[i]);
        lemma_filter_single(init, p, i);
        assert(!p(s[s.len() - 1]));
    }
}

/// A command listed under the requested name (trimmed, without a leading
/// slash) is the answer when it is the first so listed, whatever follows:
/// its qualified name, or `/` and its name when it has none.
pub proof fn law_resolve_by_plain_name(requested: Seq<char>, cmds: Seq<CommandInfo>, i: int)
    requires
        trimmed(requested).len() > 0,
        0 <= i < cmds.len(),
        opt_is(cmds[i].name, strip_start(trimmed(requested), '/')),
        forall|j: int| 0 <= j < i ==> !opt_is(#[trigger] cmds[j].name, strip_start(trimmed(requested), '/')),
    ensures
        resolution(requested, cmds) == NameResolution::Found(match cmds[i].qualified_name {
            Some(q) => q@,
            None => "/"@ + strip_start(trimmed(requested), '/'),
        }),
{
    let ns = strip_start(trimmed(requested), '/');
    let p = named(ns);
    assert forall|j: int| 0 <= j < cmds.take(i).len() implies !p(#[trigger] cmds.take(i)[j]) by {
        assert(cmds.take(i)[j] == cmds[j]);
    }
    lemma_first_where_absent(cmds.take(i), p);
    lemma_first_where_found(cmds, p, i);
}

/// When no command is listed under the requested name or qualified name,
/// a single command whose qualified name ends in the requested segment is
/// the answer, with its qualified name.
pub proof fn law_resolve_by_unique_segment(requested: Seq<char>, cmds: Seq<CommandInfo>, i: int, q: String)
    requires
        trimmed(requested).len() > 0,
        0 <= i < cmds.len(),
        cmds[i].qualified_name == Some(q),
        after_last(q@, '/') == strip_start(trimmed(requested), '/'),
        forall|j: int| 0 <= j < cmds.len() ==> !opt_is(#[trigger] cmds[j].name, strip_start(trimmed(requested), '/'))
            && !opt_is(cmds[j].qualified_name, trimmed(requested))
            && !opt_is(cmds[j].qualified_name, with_leading_slash(trimmed(requested))),
        forall|j: int| 0 <= j < cmds.len() && j != i ==> !(#[trigger] cmds[j].qualified_name matches Some(q2)
            && after_last(q2@, '/') == strip_start(trimmed(requested), '/')),
    ensures
        resolution(requested, cmds) == NameResolution::Found(q@),
{
    let rq = trimmed(requested);
    let ns = strip_start(rq, '/');
    let ws = with_leading_slash(rq);
    assert forall|j: int| 0 <= j < cmds.len() implies !named(ns)(#[trigger] cmds[j]) by {}
    lemma_first_where_absent(cmds, named(ns));
    assert forall|j: int| 0 <= j < cmds.len() implies !qualified_as(rq, ws)(#[trigger] cmds[j]) by {}
    lemma_first_where_absent(cmds, qualified_as(rq, ws));
    assert forall|j: int| 0 <= j < cmds.len() && j != i implies !trailing(ns)(#[trigger] cmds[j]) by {}
    lemma_filter_single(cmds, trailing(ns), i);
}

/// A blank request is refused before any listing is looked at.
pub proof fn law_resolve_blank(requested: Seq<char>, cmds: Seq<CommandInfo>)
    requires
        trimmed(requested).len() == 0,
    ensures
        resolution(requested, cmds) == NameResolution::Empty,
{
}

/// Resolves `requested_name` against the MDB command listing `commands`.
pub fn resolve_command_name_in(requested_name: &str, commands: &[CommandInfo]) -> (r: Result<String, YamcsTcError>)
    ensures
        match resolution(requested_name@, commands@) {
            NameResolution::Found(s) => r matches Ok(x) && x@ == s,
            NameResolution::Empty => r matches Err(YamcsTcError::Validation(m))
                && m@ == "requested command name cannot be empty"@,
            NameResolution::Ambiguous => r matches Err(YamcsTcError::Command(m))
                && m@ == "ambiguous command name '"@ + trimmed(requested_name@)
                + "': multiple MDB matches found"@,
            NameResolution::NotFound => r matches Err(YamcsTcError::Command(m))
                && m@ == "command '"@ + trimmed(requested_name@) + "' not found in MDB"@,
        },
{
    let requested = trim(requested_name);
    if is_blank(requested_name) {
        return Err(YamcsTcError::Validation(String::from_str("requested command name cannot be empty")));
    }
    let no_slash = trim_start_char(requested.as_str(), '/');
    let with_slash = leading_slash(requested.as_str());
    let ghost rq = requested@;
    let ghost ns = no_slash@;
    let ghost ws = with_slash@;

    let mut i: usize = 0;
    while i < commands.len()
        invariant
            i <= commands@.len(),
            first_where(commands@.take(i as int), named(ns)) is None,
            rq == trimmed(requested_name@),
            rq.len() > 0,
            ns == strip_start(rq, '/'),
            ws == with_leading_slash(rq),
            ns == no_slash@,
            ws == with_slash@,
            rq == requested@,
        decreases commands@.len() - i,
    {
        proof {
            lemma_first_where_step(commands@, named(ns), i as int);
        }
        if opt_str_is(&commands[i].name, no_slash.as_str()) {
            proof {
                lemma_first_where_found(commands@, named(ns), i as int);
            }
            return Ok(answer_for_exec(&commands[i], &with_slash));
        }
        i = i + 1;
    }
    assert(commands@.take(commands@.len() as int) =~= commands@);

    let mut i: usize = 0;
    while i < commands.len()
        invariant
            i <= commands@.len(),
            first_where(commands@.take(i as int), qualified_as(rq, ws)) is None,
            first_where(commands@, named(ns)) is None,
            rq == trimmed(requested_name@),
            rq.len() > 0,
            ns == strip_start(rq, '/'),
            ws == with_leading_slash(rq),
            ns == no_slash@,
            ws == with_slash@,
            rq == requested@,
        decreases commands@.len() - i,
    {
        proof {
            lemma_first_where_step(commands@, qualified_as(rq, ws), i as int);
        }
        if opt_str_is(&commands[i].qualified_name, requested.as_str())
            || opt_str_is(&commands[i].qualified_name, with_slash.as_str()) {
            proof {
                lemma_first_where_found(commands@, qualified_as(rq, ws), i as int);
            }
            return Ok(answer_for_exec(&commands[i], &with_slash));
        }
        i = i + 1;
    }
    assert(commands@.take(commands@.len() as int) =~= commands@);

    let mut count: usize = 0;
    let mut first: usize = 0;
    let mut i: usize = 0;
    while i < commands.len()
        invariant
            i <= commands@.len(),
            first_where(commands@, named(ns)) is None,
            first_where(commands@, qualified_as(rq, ws)) is None,
            rq == trimmed(requested_name@),
            rq.len() > 0,
            ns == strip_start(rq, '/'),
            ws == with_leading_slash(rq),
            ns == no_slash@,
            ws == with_slash@,
            rq == requested@,
            count == commands@.take(i as int).filter(trailing(ns)).len(),
            count <= i,
            count >= 1 ==> first < commands@.len()
                && commands@.take(i as int).filter(trailing(ns))[0] == commands@[first as int],
        decreases commands@.len() - i,
    {
        proof {
            reveal_with_fuel(Seq::<_>::filter, 1);
            assert(commands@.take(i + 1).drop_last() =~= commands@.take(i as int));
        }
        if trailing_match_exec(&commands[i], no_slash.as_str()) {
            if count == 0 {
                first = i;
            }
            count = count + 1;
        }
        i = i + 1;
    }
    assert(commands@.take(commands@.len() as int) =~= commands@);
    if count == 1 {
        return Ok(answer_for_exec(&commands[first], &with_slash));
    }
    if count > 1 {
        let mut m = concat("ambiguous command name '", requested.as_str());
        m.append("': multiple MDB matches found");
        return Err(YamcsTcError::Command(m));
    }
    let mut m = concat("command '", requested.as_str());
    m.append("' not found in MDB");
    Err(YamcsTcError::Command(m))
}

// ---------------------------------------------------------------------------
// MDB command definitions
// ---------------------------------------------------------------------------

/// A command definition as the MDB returns it.
#[derive(Debug)]
pub struct CommandDefinition {
    pub raw: JsonValue,
}

/// The array stored under `key`, if there is one.
pub open spec fn array_at(v: JsonView, key: Seq<char>) -> Option<Seq<JsonView>> {
    match json_get(v, key) {
        Some(JsonView::Array(a)) => Some(a),
        _ => None,
    }
}

/// The string member `name`.
pub open spec fn name_of(v: JsonView) -> Option<Seq<char>> {
    json_str(json_get(v, "name"@))
}

/// The base command: `baseCommand.qualifiedName`, or, when that member is
/// absent, `baseCommand.name`; only a string counts.
pub open spec fn mdb_base_command(raw: JsonView) -> Option<Seq<char>> {
    match json_get(raw, "baseCommand"@) {
        Some(bc) => {
            let q = json_get(bc, "qualifiedName"@);
            json_str(if q is Some { q } else { json_get(bc, "name"@) })
        },
        None => None,
    }
}

pub open spec fn name_of_fn() -> spec_fn(JsonView) -> Option<Seq<char>> {
    |v: JsonView| name_of(v)
}

/// The names of the declared arguments (entries without a string name are skipped).
pub open spec fn mdb_argument_names(raw: JsonView) -> Seq<Seq<char>> {
    match array_at(raw, "argument"@) {
        Some(a) => a.filter_map(name_of_fn()),
        None => Seq::empty(),
    }
}

pub open spec fn assignment_of(v: JsonView) -> Option<(Seq<char>, JsonView)> {
    match (name_of(v), json_get(v, "value"@)) {
        (Some(n), Some(x)) => Some((n, x)),
        _ => None,
    }
}

pub open spec fn assignment_of_fn() -> spec_fn(JsonView) -> Option<(Seq<char>, JsonView)> {
    |v: JsonView| assignment_of(v)
}

/// The argument assignments `(name, value)` that the definition fixes.
pub open spec fn mdb_assignments(raw: JsonView) -> Seq<(Seq<char>, JsonView)> {
    match array_at(raw, "argumentAssignment"@) {
        Some(a) => a.filter_map(assignment_of_fn()),
        None => Seq::empty(),
    }
}

/// The entries of the command container.
pub open spec fn container_entries(raw: JsonView) -> Option<Seq<JsonView>> {
    match json_get(raw, "commandContainer"@) {
        Some(cc) => array_at(cc, "entry"@),
        None => None,
    }
}

/// The name of the argument that a container entry holds.
pub open spec fn entry_arg_name(e: JsonView) -> Option<Seq<char>> {
    match json_get(e, "argument"@) {
        Some(a) => name_of(a),
        None => None,
    }
}

pub open spec fn entry_arg_name_fn() -> spec_fn(JsonView) -> Option<Seq<char>> {
    |v: JsonView| entry_arg_name(v)
}

/// The names of the arguments in the command container.
pub open spec fn mdb_payload_arg_names(raw: JsonView) -> Seq<Seq<char>> {
    match container_entries(raw) {
        Some(es) => es.filter_map(entry_arg_name_fn()),
        None => Seq::empty(),
    }
}

/// `argument.type.dataEncoding.sizeInBits` of a container entry, taken as a
/// `u32` (0 when absent or not an unsigned integer).
pub open spec fn entry_bits(e: JsonView) -> u32 {
    let a = json_get(e, "argument"@);
    let t = match a { Some(x) => json_get(x, "type"@), None => None };
    let d = match t { Some(x) => json_get(x, "dataEncoding"@), None => None };
    let b = match d { Some(x) => json_get(x, "sizeInBits"@), None => None };
    match json_u64(b) {
        Some(n) => n as u32,
        None => 0,
    }
}

pub open spec fn bits_sum(es: Seq<JsonView>) -> int
    decreases es.len(),
{
    if es.len() == 0 {
        0
    } else {
        bits_sum(es.drop_last()) + entry_bits(es.last())
    }
}

/// The sum of the sizes of the container's argument entries.
pub open spec fn mdb_container_bits(raw: JsonView) -> int {
    match container_entries(raw) {
        Some(es) => bits_sum(es),
        None => 0,
    }
}

/// Whether the command container has an entry for the argument `name`.
pub open spec fn mdb_has_arg_in_container(raw: JsonView, name: Seq<char>) -> bool {
    match container_entries(raw) {
        Some(es) => exists|i: int| 0 <= i < es.len() && entry_arg_name(es[i]) == Some(name),
        None => false,
    }
}

/// A container holds an argument when any of its entries, at whatever
/// position, names it; and only then.
pub proof fn law_container_arg_at_any_position(raw: JsonView, name: Seq<char>, cc: JsonView, es: Seq<JsonView>)
    requires
        json_get(raw, "commandContainer"@) == Some(cc),
        json_get(cc, "entry"@) == Some(JsonView::Array(es)),
    ensures
        mdb_has_arg_in_container(raw, name) <==> exists|i: int, a: JsonView|
            #![trigger json_get(es[i], "argument"@), json_get(a, "name"@)]
            0 <= i < es.len() && json_get(es[i], "argument"@) == Some(a)
                && json_get(a, "name"@) == Some(JsonView::Str(name)),
{
    if mdb_has_arg_in_container(raw, name) {
        let i = choose|i: int| 0 <= i < es.len() && entry_arg_name(es[i]) == Some(name);
        let a = json_get(es[i], "argument"@)->0;
        assert(json_get(es[i], "argument"@) == Some(a) && json_get(a, "name"@) == Some(JsonView::Str(name)));
    }
    if exists|i: int, a: JsonView|
        #![trigger json_get(es[i], "argument"@), json_get(a, "name"@)]
        0 <= i < es.len() && json_get(es[i], "argument"@) == Some(a)
            && json_get(a, "name"@) == Some(JsonView::Str(name)) {
        let (i, a) = choose|i: int, a: JsonView|
            #![trigger json_get(es[i], "argument"@), json_get(a, "name"@)]
            0 <= i < es.len() && json_get(es[i], "argument"@) == Some(a)
                && json_get(a, "name"@) == Some(JsonView::Str(name));
        assert(entry_arg_name(es[i]) == Some(name));
    }
}

/// The definition whose container holds the packet data length (the CCSDS
/// primary header) adds no bits to the length, wherever in its container
/// that entry stands: adding it to a chain leaves the count unchanged.
pub proof fn law_header_bits_not_counted(chain: Seq<CommandDefinition>, header: CommandDefinition, cc: JsonView, es: Seq<JsonView>, i: int, a: JsonView)
    requires
        json_get(header.raw@, "commandContainer"@) == Some(cc),
        json_get(cc, "entry"@) == Some(JsonView::Array(es)),
        0 <= i < es.len(),
        json_get(es[i], "argument"@) == Some(a),
        json_get(a, "name"@) == Some(JsonView::Str("CCSDS_Packet_Data_Length"@)),
    ensures
        pdl_bits_total(chain.push(header)) == pdl_bits_total(chain),
        pdl_bits_total(seq![header] + chain) == pdl_bits_total(chain),
{
    assert(entry_arg_name(es[i]) == Some(pdl()));
    assert(mdb_has_arg_in_container(header.raw@, pdl()));
    assert(chain.push(header).drop_last() =~= chain);
    lemma_bits_total_prepend(header, chain);
    let one = seq![header];
    assert(one.drop_last() =~= Seq::<CommandDefinition>::empty());
    assert(one.last() == header);
    assert(pdl_bits_total(one) == pdl_bits_total(one.drop_last()) + if mdb_has_arg_in_container(header.raw@, pdl()) {
        0
    } else {
        mdb_container_bits(header.raw@)
    });
}

proof fn lemma_bits_sum_nonneg(es: Seq<JsonView>)
    ensures
        bits_sum(es) >= 0,
    decreases es.len(),
{
    if es.len() > 0 {
        lemma_bits_sum_nonneg(es.drop_last());
    }
}

/// The member `key` of `v`, or `None`.
fn get_opt<'a>(v: Option<&'a JsonValue>, key: &str) -> (r: Option<&'a JsonValue>)
    ensures
        match v {
            Some(x) => match r {
                Some(y) => json_get(x@, key@) == Some(y@),
                None => json_get(x@, key@) is None,
            },
            None => r is None,
        },
{
    match v {
        Some(x) => x.get(key),
        None => None,
    }
}

/// The string member `name` of `v`.
fn name_of_exec(v: &JsonValue) -> (r: Option<&String>)
    ensures
        match r {
            Some(s) => name_of(v@) == Some(s@),
            None => name_of(v@) is None,
        },
{
    match v.get("name") {
        Some(n) => n.as_str(),
        None => None,
    }
}

/// The array under `key`.
fn array_at_exec<'a>(v: &'a JsonValue, key: &str) -> (r: Option<&'a Vec<JsonValue>>)
    ensures
        match r {
            Some(a) => array_at(v@, key@) == Some(items_view(a@)),
            None => array_at(v@, key@) is None,
        },
{
    match v.get(key) {
        Some(x) => x.as_array(),
        None => None,
    }
}

fn entry_arg_name_exec(e: &JsonValue) -> (r: Option<&String>)
    ensures
        match r {
            Some(s) => entry_arg_name(e@) == Some(s@),
            None => entry_arg_name(e@) is None,
        },
{
    match e.get("argument") {
        Some(a) => name_of_exec(a),
        None => None,
    }
}

fn entry_bits_exec(e: &JsonValue) -> (r: u32)
    ensures
        r == entry_bits(e@),
{
    let a = e.get("argument");
    let t = get_opt(a, "type");
    let d = get_opt(t, "dataEncoding");
    let b = get_opt(d, "sizeInBits");
    match b {
        Some(x) => match x.as_u64() {
            Some(n) => n as u32,
            None => 0,
        },
        None => 0,
    }
}

/// The names held by the elements of `a`, for those elements that have one,
/// where `pick` gives each element's name.
fn collect_names(a: &Vec<JsonValue>, in_container: bool) -> (r: Vec<String>)
    ensures
        r@.map_values(|s: String| s@) == items_view(a@).filter_map(
            if in_container { entry_arg_name_fn() } else { name_of_fn() },
        ),
{
    let ghost f = if in_container { entry_arg_name_fn() } else { name_of_fn() };
    let mut out: Vec<String> = Vec::new();
    let mut i: usize = 0;
    proof {
        lemma_items_view_len(a@);
    }
    while i < a.len()
        invariant
            i <= a@.len(),
            items_view(a@).len() == a@.len(),
            f == (if in_container { entry_arg_name_fn() } else { name_of_fn() }),
            out@.map_values(|s: String| s@) == items_view(a@).take(i as int).filter_map(f),
        decreases a@.len() - i,
    {
        proof {
            lemma_items_view_index(a@, i as int);
            items_view(a@).lemma_filter_map_take_succ(f, i as int);
        }
        let n = if in_container { entry_arg_name_exec(&a[i]) } else { name_of_exec(&a[i]) };
        match n {
            Some(s) => {
                let c = copy_string(s);
                let ghost before = out@;
                out.push(c);
                assert(out@.map_values(|s: String| s@) =~= before.map_values(|s: String| s@) + seq![c@]);
            },
            None => {},
        }
        i = i + 1;
    }
    assert(items_view(a@).take(a@.len() as int) =~= items_view(a@));
    out
}

impl CommandDefinition {
    /// The qualified name of the base command, if the definition has one.
    pub fn base_command(&self) -> (r: Option<String>)
        ensures
            match r {
                Some(s) => mdb_base_command(self.raw@) == Some(s@),
                None => mdb_base_command(self.raw@) is None,
            },
    {
        match self.raw.get("baseCommand") {
            Some(bc) => {
                let q = bc.get("qualifiedName");
                let pick = match q {
                    Some(x) => Some(x),
                    None => bc.get("name"),
                };
                match pick {
                    Some(v) => match v.as_str() {
                        Some(s) => Some(copy_string(s)),
                        None => None,
                    },
                    None => None,
                }
            },
            None => None,
        }
    }

    /// The names of the declared arguments.
    pub fn argument_names(&self) -> (r: Vec<String>)
        ensures
            r@.map_values(|s: String| s@) == mdb_argument_names(self.raw@),
    {
        match array_at_exec(&self.raw, "argument") {
            Some(a) => collect_names(a, false),
            None => {
                let v: Vec<String> = Vec::new();
                assert(v@.map_values(|s: String| s@) =~= Seq::<Seq<char>>::empty());
                v
            },
        }
    }

    /// The names of the arguments in the command container.
    pub fn payload_arg_names(&self) -> (r: Vec<String>)
        ensures
            r@.map_values(|s: String| s@) == mdb_payload_arg_names(self.raw@),
    {
        let cc = self.raw.get("commandContainer");
        match cc {
            Some(c) => match array_at_exec(c, "entry") {
                Some(a) => collect_names(a, true),
                None => {
                    let v: Vec<String> = Vec::new();
                    assert(v@.map_values(|s: String| s@) =~= Seq::<Seq<char>>::empty());
                    v
                },
            },
            None => {
                let v: Vec<String> = Vec::new();
                assert(v@.map_values(|s: String| s@) =~= Seq::<Seq<char>>::empty());
                v
            },
        }
    }

    /// The argument assignments `(name, value)` of the definition.
    pub fn assignments(&self) -> (r: Vec<(String, JsonValue)>)
        ensures
            entries_view(r@) == mdb_assignments(self.raw@),
    {
        let mut out: Vec<(String, JsonValue)> = Vec::new();
        match array_at_exec(&self.raw, "argumentAssignment") {
            Some(a) => {
                let ghost f = assignment_of_fn();
                let mut i: usize = 0;
                proof {
                    lemma_items_view_len(a@);
                }
                while i < a.len()
                    invariant
                        i <= a@.len(),
                        items_view(a@).len() == a@.len(),
                        f == assignment_of_fn(),
                        entries_view(out@) == items_view(a@).take(i as int).filter_map(f),
                    decreases a@.len() - i,
                {
                    proof {
                        lemma_items_view_index(a@, i as int);
                        items_view(a@).lemma_filter_map_take_succ(f, i as int);
                    }
                    match name_of_exec(&a[i]) {
                        Some(n) => match a[i].get("value") {
                            Some(v) => {
                                let e = (copy_string(n), v.deep_copy());
                                let ghost before = out@;
                                out.push(e);
                                proof {
                                    assert(out@.drop_last() =~= before);
                                    assert(entries_view(out@) =~= entries_view(before) + seq![(e.0@, e.1@)]);
                                }
                            },
                            None => {},
                        },
                        None => {},
                    }
                    i = i + 1;
                }
                assert(items_view(a@).take(a@.len() as int) =~= items_view(a@));
                out
            },
            None => out,
        }
    }

    /// The sum of the sizes in bits of the container's argument entries, when
    /// it fits in 32 bits.
    pub fn container_bits_checked(&self) -> (r: Option<u32>)
        ensures
            match r {
                Some(b) => b == mdb_container_bits(self.raw@),
                None => mdb_container_bits(self.raw@) > u32::MAX,
            },
    {
        let cc = self.raw.get("commandContainer");
        match cc {
            Some(c) => match array_at_exec(c, "entry") {
                Some(a) => {
                    let mut total: u32 = 0;
                    let mut i: usize = 0;
                    proof {
                        lemma_items_view_len(a@);
                    }
                    while i < a.len()
                        invariant
                            i <= a@.len(),
                            items_view(a@).len() == a@.len(),
                            container_entries(self.raw@) == Some(items_view(a@)),
                            total == bits_sum(items_view(a@).take(i as int)),
                        decreases a@.len() - i,
                    {
                        proof {
                            lemma_items_view_index(a@, i as int);
                            assert(items_view(a@).take(i + 1).drop_last() =~= items_view(a@).take(i as int));
                        }
                        let b = entry_bits_exec(&a[i]);
                        if b > u32::MAX - total {
                            proof {
                                lemma_bits_prefix_le(items_view(a@), (i + 1) as int);
                                assert(items_view(a@).take(a@.len() as int) =~= items_view(a@));
                            }
                            return None;
                        }
                        total = total + b;
                        i = i + 1;
                    }
                    assert(items_view(a@).take(a@.len() as int) =~= items_view(a@));
                    Some(total)
                },
                None => Some(0),
            },
            None => Some(0),
        }
    }

    /// The sum of the sizes in bits of the container's argument entries.
    pub fn container_bits(&self) -> (r: u32)
        requires
            mdb_container_bits(self.raw@) <= u32::MAX,
        ensures
            r == mdb_container_bits(self.raw@),
    {
        match self.container_bits_checked() {
            Some(b) => b,
            None => 0,
        }
    }

    /// Whether the command container has an entry for the argument `arg_name`.
    pub fn has_arg_in_container(&self, arg_name: &str) -> (r: bool)
        ensures
            r == mdb_has_arg_in_container(self.raw@, arg_name@),
    {
        let cc = self.raw.get("commandContainer");
        match cc {
            Some(c) => match array_at_exec(c, "entry") {
                Some(a) => {
                    let mut i: usize = 0;
                    proof {
                        lemma_items_view_len(a@);
                    }
                    while i < a.len()
                        invariant
                            i <= a@.len(),
                            items_view(a@).len() == a@.len(),
                            container_entries(self.raw@) == Some(items_view(a@)),
                            forall|j: int| 0 <= j < i ==> entry_arg_name(#[trigger] items_view(a@)[j]) != Some(arg_name@),
                        decreases a@.len() - i,
                    {
                        proof {
                            lemma_items_view_index(a@, i as int);
                        }
                        match entry_arg_name_exec(&a[i]) {
                            Some(n) => {
                                if str_eq(n.as_str(), arg_name) {
                                    assert(entry_arg_name(items_view(a@)[i as int]) == Some(arg_name@));
                                    return true;
                                }
                            },
                            None => {},
                        }
                        i = i + 1;
                    }
                    false
                },
                None => false,
            },
            None => false,
        }
    }
}

proof fn lemma_bits_prefix_le(es: Seq<JsonView>, j: int)
    requires
        0 <= j <= es.len(),
    ensures
        bits_sum(es.take(j)) <= bits_sum(es),
    decreases es.len(),
{
    if j < es.len() {
        lemma_bits_prefix_le(es.drop_last(), j);
        assert(es.drop_last().take(j) =~= es.take(j));
    } else {
        assert(es.take(j) =~= es);
    }
}

// ---------------------------------------------------------------------------
// Final command arguments
// ---------------------------------------------------------------------------

/// The name of the CCSDS packet data length argument.
pub open spec fn pdl() -> Seq<char> {
    "CCSDS_Packet_Data_Length"@
}

/// Some definition of the chain declares the argument `k`.
pub open spec fn chain_declares(chain: Seq<CommandDefinition>, k: Seq<char>) -> bool {
    exists|i: int| 0 <= i < chain.len() && #[trigger] mdb_argument_names(chain[i].raw@).contains(k)
}

/// Some definition of the chain assigns the argument `k` itself.
pub open spec fn chain_fixes(chain: Seq<CommandDefinition>, k: Seq<char>) -> bool {
    exists|i: int, j: int|
        0 <= i < chain.len() && 0 <= j < mdb_assignments(chain[i].raw@).len()
            && #[trigger] mdb_assignments(chain[i].raw@)[j].0 == k
}

/// A user argument is sent when the chain declares it and does not assign it.
pub open spec fn forwardable(chain: Seq<CommandDefinition>, k: Seq<char>) -> bool {
    chain_declares(chain, k) && !chain_fixes(chain, k)
}

pub open spec fn forwarded(chain: Seq<CommandDefinition>) -> spec_fn((Seq<char>, JsonView)) -> bool {
    |e: (Seq<char>, JsonView)| forwardable(chain, e.0)
}

/// The sizes in bits of all containers of the chain except those that hold
/// the packet data length (the CCSDS primary header).
pub open spec fn pdl_bits_total(chain: Seq<CommandDefinition>) -> int
    decreases chain.len(),
{
    if chain.len() == 0 {
        0
    } else {
        pdl_bits_total(chain.drop_last()) + if mdb_has_arg_in_container(chain.last().raw@, pdl()) {
            0
        } else {
            mdb_container_bits(chain.last().raw@)
        }
    }
}

/// Whether some entry has the key `k`.
pub open spec fn has_key(es: Seq<(Seq<char>, JsonView)>, k: Seq<char>) -> bool {
    exists|i: int| 0 <= i < es.len() && #[trigger] es[i].0 == k
}

/// The user arguments that are sent.
pub open spec fn kept_args(chain: Seq<CommandDefinition>, es: Seq<(Seq<char>, JsonView)>) -> Seq<(Seq<char>, JsonView)> {
    es.filter(forwarded(chain))
}

/// Whether the packet data length is computed: the chain declares it, does
/// not assign it, and the user did not supply it.
pub open spec fn pdl_wanted(chain: Seq<CommandDefinition>, es: Seq<(Seq<char>, JsonView)>) -> bool {
    forwardable(chain, pdl()) && !has_key(kept_args(chain, es), pdl())
}

/// The packet data length for a given number of bits after the primary
/// header: the byte count less one, never below zero.
pub open spec fn pdl_value(bits: int) -> int {
    if bits / 8 >= 1 { bits / 8 - 1 } else { 0 }
}

/// The arguments sent for a command: the user arguments that the chain
/// declares and does not assign, plus the computed packet data length when
/// it is wanted and there are bits to count. `None` when the user arguments
/// are not an object.
pub open spec fn final_args(chain: Seq<CommandDefinition>, user: JsonView) -> Option<Seq<(Seq<char>, JsonView)>> {
    match user {
        JsonView::Object(es) => {
            let kept = kept_args(chain, es);
            let bits = pdl_bits_total(chain);
            if pdl_wanted(chain, es) && bits > 0 {
                Some(kept.push((pdl(), JsonView::PosInt(pdl_value(bits) as u64))))
            } else {
                Some(kept)
            }
        },
        _ => None,
    }
}

/// Whether the container sizes that the computation adds up fit in 32 bits
/// (the sum is taken in 32 bits).
pub open spec fn final_args_fit(chain: Seq<CommandDefinition>, user: JsonView) -> bool {
    (user matches JsonView::Object(es) && pdl_wanted(chain, es)) ==> pdl_bits_total(chain) <= u32::MAX
}

fn strings_contain(names: &Vec<String>, k: &str) -> (r: bool)
    ensures
        r == names@.map_values(|s: String| s@).contains(k@),
{
    let mut i: usize = 0;
    while i < names.len()
        invariant
            i <= names@.len(),
            forall|j: int| 0 <= j < i ==> names@[j]@ != k@,
        decreases names@.len() - i,
    {
        if str_eq(names[i].as_str(), k) {
            assert(names@.map_values(|s: String| s@)[i as int] == k@);
            return true;
        }
        i = i + 1;
    }
    let ghost m = names@.map_values(|s: String| s@);
    assert forall|j: int| 0 <= j < m.len() implies #[trigger] m[j] != k@ by {}
    false
}

/// Whether some definition of the chain declares `k`.
pub fn chain_declares_exec(chain: &[CommandDefinition], k: &str) -> (r: bool)
    ensures
        r == chain_declares(chain@, k@),
{
    let mut i: usize = 0;
    while i < chain.len()
        invariant
            i <= chain@.len(),
            forall|j: int| 0 <= j < i ==> !#[trigger] mdb_argument_names(chain@[j].raw@).contains(k@),
        decreases chain@.len() - i,
    {
        let names = chain[i].argument_names();
        if strings_contain(&names, k) {
            return true;
        }
        i = i + 1;
    }
    false
}

/// Whether some definition of the chain assigns `k`.
pub fn chain_fixes_exec(chain: &[CommandDefinition], k: &str) -> (r: bool)
    ensures
        r == chain_fixes(chain@, k@),
{
    let mut i: usize = 0;
    while i < chain.len()
        invariant
            i <= chain@.len(),
            forall|j: int, m: int| 0 <= j < i && 0 <= m < mdb_assignments(chain@[j].raw@).len()
                ==> #[trigger] mdb_assignments(chain@[j].raw@)[m].0 != k@,
        decreases chain@.len() - i,
    {
        let a = chain[i].assignments();
        let mut m: usize = 0;
        proof {
            lemma_entries_view_len(a@);
        }
        while m < a.len()
            invariant
                i < chain@.len(),
                m <= a@.len(),
                entries_view(a@) == mdb_assignments(chain@[i as int].raw@),
                entries_view(a@).len() == a@.len(),
                forall|n: int| 0 <= n < m ==> #[trigger] mdb_assignments(chain@[i as int].raw@)[n].0 != k@,
            decreases a@.len() - m,
        {
            proof {
                lemma_entries_view_index(a@, m as int);
            }
            if str_eq(a[m].0.as_str(), k) {
                assert(mdb_assignments(chain@[i as int].raw@)[m as int].0 == k@);
                return true;
            }
            m = m + 1;
        }
        i = i + 1;
    }
    false
}

proof fn lemma_pdl_total_step(chain: Seq<CommandDefinition>, i: int)
    requires
        0 <= i < chain.len(),
    ensures
        pdl_bits_total(chain.take(i + 1)) == pdl_bits_total(chain.take(i)) + if mdb_has_arg_in_container(chain[i].raw@, pdl()) {
            0
        } else {
            mdb_container_bits(chain[i].raw@)
        },
{
    assert(chain.take(i + 1).drop_last() =~= chain.take(i));
}

proof fn lemma_pdl_total_prefix(chain: Seq<CommandDefinition>, j: int)
    requires
        0 <= j <= chain.len(),
    ensures
        0 <= pdl_bits_total(chain.take(j)) <= pdl_bits_total(chain),
    decreases chain.len(),
{
    if j < chain.len() {
        lemma_pdl_total_prefix(chain.drop_last(), j);
        assert(chain.drop_last().take(j) =~= chain.take(j));
        if !mdb_has_arg_in_container(chain.last().raw@, pdl()) {
            match container_entries(chain.last().raw@) {
                Some(es) => lemma_bits_sum_nonneg(es),
                None => {},
            }
        }
    } else {
        assert(chain.take(j) =~= chain);
        if j > 0 {
            lemma_pdl_total_prefix(chain.drop_last(), j - 1);
            assert(chain.drop_last().take(j - 1) =~= chain.drop_last());
            if !mdb_has_arg_in_container(chain.last().raw@, pdl()) {
                match container_entries(chain.last().raw@) {
                    Some(es) => lemma_bits_sum_nonneg(es),
                    None => {},
                }
            }
        }
    }
}

/// The sizes added up for the packet data length, when they fit in 32 bits.
pub fn pdl_bits_checked(chain: &[CommandDefinition]) -> (r: Option<u32>)
    ensures
        match r {
            Some(b) => b == pdl_bits_total(chain@),
            None => pdl_bits_total(chain@) > u32::MAX,
        },
{
    let mut total: u32 = 0;
    let mut i: usize = 0;
    assert(chain@.take(0) =~= Seq::<CommandDefinition>::empty());
    while i < chain.len()
        invariant
            i <= chain@.len(),
            total == pdl_bits_total(chain@.take(i as int)),
        decreases chain@.len() - i,
    {
        proof {
            lemma_pdl_total_step(chain@, i as int);
        }
        if !chain[i].has_arg_in_container("CCSDS_Packet_Data_Length") {
            match chain[i].container_bits_checked() {
                Some(b) => {
                    if b > u32::MAX - total {
                        proof {
                            lemma_pdl_total_prefix(chain@, i + 1);
                            assert(chain@.take(chain@.len() as int) =~= chain@);
                        }
                        return None;
                    }
                    total = total + b;
                },
                None => {
                    proof {
                        lemma_pdl_total_prefix(chain@, i + 1);
                        assert(chain@.take(chain@.len() as int) =~= chain@);
                        lemma_pdl_total_prefix(chain@, i as int);
                    }
                    return None;
                },
            }
        }
        i = i + 1;
    }
    assert(chain@.take(chain@.len() as int) =~= chain@);
    Some(total)
}

/// Whether [`build_final_args_from`] may be called on these inputs: the
/// sizes that it adds up in 32 bits fit there.
pub fn final_args_fit_exec(chain: &[CommandDefinition], user_args: &JsonValue) -> (r: bool)
    ensures
        r == final_args_fit(chain@, user_args@),
{
    match user_args {
        JsonValue::Object(es) => {
            let kept = keep_forwarded(chain, es);
            if chain_declares_exec(chain, "CCSDS_Packet_Data_Length")
                && !chain_fixes_exec(chain, "CCSDS_Packet_Data_Length")
                && !entries_have_key(&kept, "CCSDS_Packet_Data_Length") {
                pdl_bits_checked(chain).is_some()
            } else {
                true
            }
        },
        _ => true,
    }
}

/// Whether some entry has the key `k`.
fn entries_have_key(es: &Vec<(String, JsonValue)>, k: &str) -> (r: bool)
    ensures
        r == has_key(entries_view(es@), k@),
{
    let mut i: usize = 0;
    proof {
        lemma_entries_view_len(es@);
    }
    while i < es.len()
        invariant
            i <= es@.len(),
            entries_view(es@).len() == es@.len(),
            forall|j: int| 0 <= j < i ==> #[trigger] entries_view(es@)[j].0 != k@,
        decreases es@.len() - i,
    {
        proof {
            lemma_entries_view_index(es@, i as int);
        }
        if str_eq(es[i].0.as_str(), k) {
            assert(entries_view(es@)[i as int].0 == k@);
            return true;
        }
        i = i + 1;
    }
    false
}

/// The user arguments that the chain declares and does not assign, in order.
fn keep_forwarded(chain: &[CommandDefinition], es: &Vec<(String, JsonValue)>) -> (r: Vec<(String, JsonValue)>)
    ensures
        entries_view(r@) == kept_args(chain@, entries_view(es@)),
{
    let ghost f = forwarded(chain@);
    let ghost ev = entries_view(es@);
    let mut out: Vec<(String, JsonValue)> = Vec::new();
    let mut i: usize = 0;
    proof {
        lemma_entries_view_len(es@);
    }
    while i < es.len()
        invariant
            i <= es@.len(),
            ev == entries_view(es@),
            ev.len() == es@.len(),
            f == forwarded(chain@),
            entries_view(out@) == ev.take(i as int).filter(f),
        decreases es@.len() - i,
    {
        proof {
            lemma_entries_view_index(es@, i as int);
            reveal_with_fuel(Seq::<_>::filter, 1);
            assert(ev.take(i + 1).drop_last() =~= ev.take(i as int));
        }
        let k = es[i].0.as_str();
        if chain_declares_exec(chain, k) && !chain_fixes_exec(chain, k) {
            let e = (copy_string(&es[i].0), es[i].1.deep_copy());
            let ghost before = out@;
            out.push(e);
            proof {
                assert(out@.drop_last() =~= before);
            }
        }
        i = i + 1;
    }
    assert(ev.take(es@.len() as int) =~= ev);
    out
}

/// The arguments sent for a command, given its definition chain (derived
/// command first or last: the result does not depend on the order) and the
/// user's arguments. Fails when the user arguments are not an object.
pub fn build_final_args_from(chain: &[CommandDefinition], user_args: &JsonValue) -> (r: Result<Vec<(String, JsonValue)>, YamcsTcError>)
    requires
        final_args_fit(chain@, user_args@),
    ensures
        match final_args(chain@, user_args@) {
            Some(es) => r matches Ok(v) && entries_view(v@) == es,
            None => r matches Err(YamcsTcError::Validation(m)) && m@ == "user args must be a JSON object"@,
        },
{
    let es = match user_args {
        JsonValue::Object(es) => es,
        _ => {
            return Err(YamcsTcError::Validation(String::from_str("user args must be a JSON object")));
        },
    };
    let mut out = keep_forwarded(chain, es);
    if chain_declares_exec(chain, "CCSDS_Packet_Data_Length")
        && !chain_fixes_exec(chain, "CCSDS_Packet_Data_Length")
        && !entries_have_key(&out, "CCSDS_Packet_Data_Length") {
        let total = match pdl_bits_checked(chain) {
            Some(t) => t,
            None => 0,
        };
        if total > 0 {
            let bytes = total / 8;
            let v: u32 = if bytes >= 1 { bytes - 1 } else { 0 };
            let e = (String::from_str("CCSDS_Packet_Data_Length"), JsonValue::from_u64(v as u64));
            let ghost before = out@;
            out.push(e);
            proof {
                assert(out@.drop_last() =~= before);
            }
        }
    }
    Ok(out)
}

proof fn lemma_bits_total_prepend(x: CommandDefinition, chain: Seq<CommandDefinition>)
    ensures
        pdl_bits_total(seq![x] + chain) == pdl_bits_total(seq![x]) + pdl_bits_total(chain),
    decreases chain.len(),
{
    if chain.len() > 0 {
        lemma_bits_total_prepend(x, chain.drop_last());
        assert((seq![x] + chain).drop_last() =~= seq![x] + chain.drop_last());
    } else {
        assert(seq![x] + chain =~= seq![x]);
    }
    assert(seq![x].drop_last() =~= Seq::<CommandDefinition>::empty());
}

proof fn lemma_bits_total_reverse(chain: Seq<CommandDefinition>)
    ensures
        pdl_bits_total(chain.reverse()) == pdl_bits_total(chain),
    decreases chain.len(),
{
    if chain.len() > 0 {
        let init = chain.drop_last();
        lemma_bits_total_reverse(init);
        assert(chain.reverse() =~= seq![chain.last()] + init.reverse());
        lemma_bits_total_prepend(chain.last(), init.reverse());
        let one = seq![chain.last()];
        assert(one.drop_last() =~= Seq::<CommandDefinition>::empty());
        assert(one.last() == chain.last());
        assert(pdl_bits_total(one) == pdl_bits_total(one.drop_last()) + if mdb_has_arg_in_container(
            chain.last().raw@,
            pdl(),
        ) {
            0
        } else {
            mdb_container_bits(chain.last().raw@)
        });
    } else {
        assert(chain.reverse() =~= chain);
    }
}

/// The arguments sent for a command do not depend on the order of its
/// definition chain: the chain read from the derived command up to its
/// base gives what the chain from the base down gives.
pub proof fn law_final_args_chain_order(chain: Seq<CommandDefinition>, user: JsonView)
    ensures
        final_args(chain.reverse(), user) == final_args(chain, user),
{
    let rev = chain.reverse();
    assert forall|k: Seq<char>| chain_declares(rev, k) == chain_declares(chain, k) by {
        if chain_declares(rev, k) {
            let i = choose|i: int| 0 <= i < rev.len() && #[trigger] mdb_argument_names(rev[i].raw@).contains(k);
            assert(mdb_argument_names(chain[chain.len() - 1 - i].raw@).contains(k));
        }
        if chain_declares(chain, k) {
            let i = choose|i: int| 0 <= i < chain.len() && #[trigger] mdb_argument_names(chain[i].raw@).contains(k);
            assert(rev[chain.len() - 1 - i] == chain[i]);
        }
    }
    assert forall|k: Seq<char>| chain_fixes(rev, k) == chain_fixes(chain, k) by {
        if chain_fixes(rev, k) {
            let (i, j) = choose|i: int, j: int|
                0 <= i < rev.len() && 0 <= j < mdb_assignments(rev[i].raw@).len()
                    && #[trigger] mdb_assignments(rev[i].raw@)[j].0 == k;
            assert(mdb_assignments(chain[chain.len() - 1 - i].raw@)[j].0 == k);
        }
        if chain_fixes(chain, k) {
            let (i, j) = choose|i: int, j: int|
                0 <= i < chain.len() && 0 <= j < mdb_assignments(chain[i].raw@).len()
                    && #[trigger] mdb_assignments(chain[i].raw@)[j].0 == k;
            assert(rev[chain.len() - 1 - i] == chain[i]);
            assert(mdb_assignments(rev[chain.len() - 1 - i].raw@)[j].0 == k);
        }
    }
    assert(forwarded(rev) =~= forwarded(chain));
    lemma_bits_total_reverse(chain);
}

/// Only arguments that the chain declares and does not assign itself are
/// ever sent: the MDB fills in the assigned ones, and undeclared ones are
/// dropped.
pub proof fn law_final_args_forwardable(chain: Seq<CommandDefinition>, user: JsonView)
    ensures
        final_args(chain, user) matches Some(es) ==> forall|i: int| 0 <= i < es.len()
            ==> forwardable(chain, #[trigger] es[i].0),
{
    if let JsonView::Object(es) = user {
        let kept = kept_args(chain, es);
        assert forall|i: int| 0 <= i < kept.len() implies forwardable(chain, #[trigger] kept[i].0) by {
            es.lemma_filter_pred(forwarded(chain), i);
        }
    }
}

/// A packet data length that the user supplies is sent as given: no
/// computed value is added beside it.
pub proof fn law_user_data_length_wins(chain: Seq<CommandDefinition>, es: Seq<(Seq<char>, JsonView)>, v: JsonView)
    requires
        forwardable(chain, pdl()),
        es.contains((pdl(), v)),
    ensures
        final_args(chain, JsonView::Object(es)) == Some(kept_args(chain, es)),
        kept_args(chain, es).contains((pdl(), v)),
{
    let i = choose|i: int| 0 <= i < es.len() && es[i] == (pdl(), v);
    es.lemma_filter_contains(forwarded(chain), i);
    let kept = kept_args(chain, es);
    let j = choose|j: int| 0 <= j < kept.len() && kept[j] == (pdl(), v);
    assert(kept[j].0 == pdl());
}

// ---------------------------------------------------------------------------
// Command requests
// ---------------------------------------------------------------------------

/// The body of a command issue (or dry-run) request.
#[derive(Debug)]
pub struct IssueCommandRequest {
    pub args: JsonValue,
    pub origin: String,
    pub sequence_number: i32,
    pub dry_run: bool,
}

impl YamcsClient {
    /// The request body that issues (or, with `dry_run`, checks) a command
    /// with the given final arguments, from the configured origin.
    pub fn command_request(&self, final_args: Vec<(String, JsonValue)>, dry_run: bool) -> (r: IssueCommandRequest)
        ensures
            r.args@ == JsonView::Object(entries_view(final_args@)),
            r.origin@ == self.spec_config().origin@,
            r.sequence_number == 0,
            r.dry_run == dry_run,
    {
        IssueCommandRequest {
            args: JsonValue::Object(final_args),
            origin: copy_string(&self.cfg.origin),
            sequence_number: 0,
            dry_run,
        }
    }
}

// ---------------------------------------------------------------------------
// MDB and archive answers
// ---------------------------------------------------------------------------

/// Where the command list stands in an MDB answer: under `commands`, or the
/// answer itself when it is an array.
pub open spec fn command_listing(v: JsonView) -> Option<Seq<JsonView>> {
    match array_at(v, "commands"@) {
        Some(a) => Some(a),
        None => match v {
            JsonView::Array(a) => Some(a),
            _ => None,
        },
    }
}

/// The command entries of an MDB listing answer.
pub fn command_listing_of(value: &JsonValue) -> (r: Result<&Vec<JsonValue>, YamcsTcError>)
    ensures
        match command_listing(value@) {
            Some(a) => r matches Ok(v) && items_view(v@) == a,
            None => r matches Err(YamcsTcError::Command(m))
                && m@ == "unexpected response shape from list_commands"@,
        },
{
    match array_at_exec(value, "commands") {
        Some(a) => Ok(a),
        None => match value.as_array() {
            Some(a) => Ok(a),
            None => Err(YamcsTcError::Command(String::from_str("unexpected response shape from list_commands"))),
        },
    }
}

/// The packet entries of an archive answer.
pub fn packet_array_of(data: &JsonValue) -> (r: Result<&Vec<JsonValue>, YamcsTcError>)
    ensures
        match array_at(data@, "packet"@) {
            Some(a) => r matches Ok(v) && items_view(v@) == a,
            None => r matches Err(YamcsTcError::Verification(m)) && m@ == "missing packet array"@,
        },
{
    match array_at_exec(data, "packet") {
        Some(a) => Ok(a),
        None => Err(YamcsTcError::Verification(String::from_str("missing packet array"))),
    }
}

/// The name under `id.name` of an archive entry.
pub open spec fn package_name(v: JsonView) -> Option<Seq<char>> {
    match json_get(v, "id"@) {
        Some(id) => name_of(id),
        None => None,
    }
}

/// An archive entry whose name ends in the segment `packet_name`.
pub open spec fn package_matches(v: JsonView, packet_name: Seq<char>) -> bool {
    package_name(v) matches Some(n) && after_last(n, '/') == packet_name
}

/// An archive entry named by a path that ends in `/` and the packet's
/// name (or by the bare name) is an entry for that packet.
pub proof fn law_package_matches_last_segment(v: JsonView, id: JsonView, prefix: Seq<char>, packet_name: Seq<char>)
    requires
        !packet_name.contains('/'),
        json_get(v, "id"@) == Some(id),
        json_get(id, "name"@) == Some(JsonView::Str(prefix + seq!['/'] + packet_name))
            || json_get(id, "name"@) == Some(JsonView::Str(packet_name)),
    ensures
        package_matches(v, packet_name),
{
    crate::text::law_last_segment(prefix, '/', packet_name);
}

pub open spec fn package_for(packet_name: Seq<char>) -> spec_fn(JsonView) -> bool {
    |v: JsonView| package_matches(v, packet_name)
}

/// Where a packet was found in the archive listing.
pub enum PacketLocation {
    /// The listing has no packet array.
    NoList,
    /// No entry is named so: the packet is asked for under the given name
    /// with an empty time and sequence number 0.
    NotListed,
    /// The first matching entry, with its full name, generation time and
    /// sequence number.
    Found(Seq<char>, Seq<char>, u64),
    /// The first matching entry lacks a string generation time.
    NoTime,
    /// The first matching entry lacks an unsigned sequence number.
    NoSequence,
}

pub open spec fn locate_packet(packages: JsonView, packet_name: Seq<char>) -> PacketLocation {
    match array_at(packages, "packet"@) {
        None => PacketLocation::NoList,
        Some(a) => match first_where(a, package_for(packet_name)) {
            None => PacketLocation::NotListed,
            Some(i) => match (json_str(json_get(a[i], "generationTime"@)), json_u64(json_get(a[i], "sequenceNumber"@))) {
                (None, _) => PacketLocation::NoTime,
                (Some(_), None) => PacketLocation::NoSequence,
                (Some(t), Some(n)) => PacketLocation::Found(package_name(a[i])->0, t, n),
            },
        },
    }
}

impl YamcsClient {
    /// The address of the latest packet named `packet_name` (the last path
    /// segment of the archived name), found in the archive listing `packages`.
    pub fn packet_by_name_url_from(&self, packages: &JsonValue, packet_name: &str) -> (r: Result<String, YamcsTcError>)
        ensures
            match locate_packet(packages@, packet_name@) {
                PacketLocation::NoList => r matches Err(YamcsTcError::Verification(m))
                    && m@ == "missing packet array in packages"@,
                PacketLocation::NotListed => r matches Ok(u) && u@ == packets_by_name_url_spec(
                    self.spec_config(), escape_slashes(packet_name@), Seq::empty(), 0),
                PacketLocation::Found(full, t, n) => r matches Ok(u) && u@ == packets_by_name_url_spec(
                    self.spec_config(), escape_slashes(full), t, (n as usize) as nat),
                PacketLocation::NoTime => r matches Err(YamcsTcError::Verification(m))
                    && m@ == "missing generationTime for packet '"@ + packet_name@ + "'"@,
                PacketLocation::NoSequence => r matches Err(YamcsTcError::Verification(m))
                    && m@ == "missing sequenceNumber for packet '"@ + packet_name@ + "'"@,
            },
    {
        let a = match array_at_exec(packages, "packet") {
            Some(a) => a,
            None => {
                return Err(YamcsTcError::Verification(String::from_str("missing packet array in packages")));
            },
        };
        let ghost av = items_view(a@);
        let ghost p = package_for(packet_name@);
        let target = chars_of(packet_name);
        let mut i: usize = 0;
        proof {
            lemma_items_view_len(a@);
        }
        while i < a.len()
            invariant
                i <= a@.len(),
                av == items_view(a@),
                av.len() == a@.len(),
                array_at(packages@, "packet"@) == Some(av),
                p == package_for(packet_name@),
                target@ == packet_name@,
                first_where(av.take(i as int), p) is None,
            decreases a@.len() - i,
        {
            proof {
                lemma_items_view_index(a@, i as int);
                lemma_first_where_step(av, p, i as int);
            }
            let name = match a[i].get("id") {
                Some(id) => name_of_exec(id),
                None => None,
            };
            match name {
                Some(n) => {
                    let nc = chars_of(n.as_str());
                    let seg = last_segment(nc.as_slice(), '/');
                    if chars_eq(seg.as_slice(), target.as_slice()) {
                        proof {
                            lemma_first_where_found(av, p, i as int);
                        }
                        let t = match a[i].get("generationTime") {
                            Some(x) => x.as_str(),
                            None => None,
                        };
                        let t = match t {
                            Some(t) => t,
                            None => {
                                let mut m = concat("missing generationTime for packet '", packet_name);
                                m.append("'");
                                return Err(YamcsTcError::Verification(m));
                            },
                        };
                        let sn = match a[i].get("sequenceNumber") {
                            Some(x) => x.as_u64(),
                            None => None,
                        };
                        let sn = match sn {
                            Some(sn) => sn,
                            None => {
                                let mut m = concat("missing sequenceNumber for packet '", packet_name);
                                m.append("'");
                                return Err(YamcsTcError::Verification(m));
                            },
                        };
                        let encoded = escape_slashes_exec(n.as_str());
                        return Ok(self.packets_by_name_url(encoded.as_str(), t.as_str(), sn as usize));
                    }
                },
                None => {},
            }
            i = i + 1;
        }
        assert(av.take(a@.len() as int) =~= av);
        let encoded = escape_slashes_exec(packet_name);
        let empty = String::new();
        proof {
            assert(empty@ =~= Seq::<char>::empty());
        }
        Ok(self.packets_by_name_url(encoded.as_str(), empty.as_str(), 0))
    }
}

// ---------------------------------------------------------------------------
// Telemetry verification
// ---------------------------------------------------------------------------

/// The name of an archived packet, if it has one.
pub open spec fn packet_name(p: PacketInfo) -> Option<Seq<char>> {
    match p.id {
        Some(id) => match id.name {
            Some(n) => Some(n@),
            None => None,
        },
        None => None,
    }
}

/// Some packet's name contains `fragment`.
pub open spec fn some_name_contains(ps: Seq<PacketInfo>, fragment: Seq<char>) -> bool {
    exists|i: int| 0 <= i < ps.len() && (#[trigger] packet_name(ps[i]) matches Some(n) && contains_seq(n, fragment))
}

/// Some packet is named exactly `name`.
pub open spec fn some_name_is(ps: Seq<PacketInfo>, name: Seq<char>) -> bool {
    exists|i: int| 0 <= i < ps.len() && #[trigger] packet_name(ps[i]) == Some(name)
}

/// Whether the name of one of `packets` contains `expected_fragment`.
pub fn packets_contain_name(packets: &[PacketInfo], expected_fragment: &str) -> (r: bool)
    ensures
        r == some_name_contains(packets@, expected_fragment@),
{
    let mut i: usize = 0;
    while i < packets.len()
        invariant
            i <= packets@.len(),
            forall|j: int| 0 <= j < i ==> !(#[trigger] packet_name(packets@[j]) matches Some(n) && contains_seq(n, expected_fragment@)),
        decreases packets@.len() - i,
    {
        match &packets[i].id {
            Some(id) => match &id.name {
                Some(n) => {
                    if contains(n.as_str(), expected_fragment) {
                        assert(packet_name(packets@[i as int]) == Some(n@));
                        return true;
                    }
                },
                None => {},
            },
            None => {},
        }
        i = i + 1;
    }
    false
}

/// Whether one of `packets` is named exactly `expected_name`.
pub fn packets_include_name(packets: &[PacketInfo], expected_name: &str) -> (r: bool)
    ensures
        r == some_name_is(packets@, expected_name@),
{
    let mut i: usize = 0;
    while i < packets.len()
        invariant
            i <= packets@.len(),
            forall|j: int| 0 <= j < i ==> #[trigger] packet_name(packets@[j]) != Some(expected_name@),
        decreases packets@.len() - i,
    {
        match &packets[i].id {
            Some(id) => match &id.name {
                Some(n) => {
                    if str_eq(n.as_str(), expected_name) {
                        assert(packet_name(packets@[i as int]) == Some(expected_name@));
                        return true;
                    }
                },
                None => {},
            },
            None => {},
        }
        i = i + 1;
    }
    false
}

/// What a verification poll leads to.
#[derive(Debug, Clone, Copy, PartialEq, Eq, Structural)]
pub enum PollStep {
    /// The packet was seen: the verification succeeds.
    Seen,
    /// The timeout has passed: the verification fails.
    GiveUp,
    /// Wait one poll interval and look again.
    Wait,
}

/// The decision after one look at the archive: success when the packet was
/// seen, failure once `elapsed_ms` has reached `timeout_ms`, else wait.
pub fn poll_step(found: bool, elapsed_ms: u64, timeout_ms: u64) -> (r: PollStep)
    ensures
        found ==> r == PollStep::Seen,
        !found && elapsed_ms >= timeout_ms ==> r == PollStep::GiveUp,
        !found && elapsed_ms < timeout_ms ==> r == PollStep::Wait,
{
    if found {
        PollStep::Seen
    } else if elapsed_ms >= timeout_ms {
        PollStep::GiveUp
    } else {
        PollStep::Wait
    }
}
} // verus!
