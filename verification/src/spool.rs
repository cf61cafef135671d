//! The crash-safe capture spool: which captures it accepts, how pending
//! files are named, admitted against the queue's capacity, accounted for in
//! the usage record, recovered in rotating batches, and expired.
use vstd::prelude::*;

use crate::adapter::ActivityKind;
use crate::text::{
    chars_of, is_ascii_alphanumeric, is_ascii_alphanumeric_spec, is_control, is_control_spec,
    push_str, string_from_chars, trim, trim_spec,
};

verus! {

/// The capture envelope schema this library writes and reads.
pub const CAPTURE_ENVELOPE_SCHEMA_VERSION: u8 = 1;

/// The most bytes a hook may hand to capture.
pub const MAX_CAPTURE_INPUT_BYTES: usize = 262144;

/// The most bytes of one pending item.
pub const MAX_PENDING_ITEM_BYTES: usize = 2097152;

/// The most pending items.
pub const MAX_PENDING_ITEMS: usize = 1024;

/// The most bytes of all pending items.
pub const MAX_PENDING_BYTES: u64 = 67108864;

/// The most items one recovery pass reads.
pub const RECOVERY_BATCH_SIZE: usize = 32;

/// The usage record's schema.
pub const USAGE_SCHEMA_VERSION: u8 = 1;

/// The most bytes of an encoded usage record.
pub const MAX_USAGE_STATE_BYTES: u64 = 262144;

/// Failures of the spool.
#[derive(Clone, Debug, PartialEq, Eq)]
pub enum SpoolError {
    Io(String),
    Json(String),
    NonRegular,
    Oversized(u64),
    QueueFull { items: usize, bytes: u64 },
    QueueInspectionLimit { entries: usize },
    StatePoisoned,
    QueueStateOverflow,
    InvalidQueueState,
}

/// Failures of a capture envelope.
#[derive(Clone, Debug, PartialEq, Eq)]
pub enum CaptureEnvelopeError {
    BlankProvider,
    NegativeCaptureTime(i64),
    BlankOriginIdentity,
    InvalidCaptureSource,
    InvalidActivityContext,
    InvalidRemoteSource,
    InvalidRemotePayload,
    UnsupportedSchemaVersion(u8),
    Json(String),
}

/// The text of an envelope failure.
pub open spec fn envelope_error_message_spec(e: CaptureEnvelopeError) -> Seq<char> {
    match e {
        CaptureEnvelopeError::BlankProvider => "capture provider must not be blank"@,
        CaptureEnvelopeError::NegativeCaptureTime(t) => "capture timestamp must not be negative: "@
            + crate::trust::signed_decimal_spec(t as int),
        CaptureEnvelopeError::BlankOriginIdentity => "capture origin identity must not be blank"@,
        CaptureEnvelopeError::InvalidCaptureSource => "capture source target or client identifier is invalid"@,
        CaptureEnvelopeError::InvalidActivityContext => "capture activity context is invalid"@,
        CaptureEnvelopeError::InvalidRemoteSource => "remote source instance identifier is invalid"@,
        CaptureEnvelopeError::InvalidRemotePayload => "remote capture payload has no valid session identifier"@,
        CaptureEnvelopeError::UnsupportedSchemaVersion(v) => "unsupported capture envelope schema version: "@
            + crate::trust::decimal_spec(v as nat),
        CaptureEnvelopeError::Json(m) => "invalid capture envelope JSON: "@ + m@,
    }
}

impl CaptureEnvelopeError {
    /// The failure's text.
    pub fn message(&self) -> (r: String)
        ensures
            r@ == envelope_error_message_spec(*self),
    {
        let mut out: Vec<char> = Vec::new();
        match self {
            CaptureEnvelopeError::BlankProvider => {
                push_str(&mut out, "capture provider must not be blank");
            },
            CaptureEnvelopeError::NegativeCaptureTime(t) => {
                push_str(&mut out, "capture timestamp must not be negative: ");
                crate::text::push_all(&mut out, crate::trust::decimal_digits_i64(*t).as_slice());
            },
            CaptureEnvelopeError::BlankOriginIdentity => {
                push_str(&mut out, "capture origin identity must not be blank");
            },
            CaptureEnvelopeError::InvalidCaptureSource => {
                push_str(&mut out, "capture source target or client identifier is invalid");
            },
            CaptureEnvelopeError::InvalidActivityContext => {
                push_str(&mut out, "capture activity context is invalid");
            },
            CaptureEnvelopeError::InvalidRemoteSource => {
                push_str(&mut out, "remote source instance identifier is invalid");
            },
            CaptureEnvelopeError::InvalidRemotePayload => {
                push_str(&mut out, "remote capture payload has no valid session identifier");
            },
            CaptureEnvelopeError::UnsupportedSchemaVersion(v) => {
                push_str(&mut out, "unsupported capture envelope schema version: ");
                crate::text::push_all(&mut out, crate::trust::decimal_digits_u64(*v as u64).as_slice());
            },
            CaptureEnvelopeError::Json(m) => {
                push_str(&mut out, "invalid capture envelope JSON: ");
                push_str(&mut out, m.as_str());
            },
        }
        proof {
            reveal_strlit("");
        }
        assert(out@ =~= envelope_error_message_spec(*self));
        string_from_chars(out.as_slice())
    }
}

// ---------------------------------------------------------------------------
// Envelopes
// ---------------------------------------------------------------------------
/// A character of a source token: ASCII letter or digit, `.`, `_`, `-`, `:`.
pub open spec fn source_token_char(c: char) -> bool {
    is_ascii_alphanumeric_spec(c) || c == '.' || c == '_' || c == '-' || c == ':'
}

/// A source token: 1 to `max_len` source token characters.
pub open spec fn valid_source_token_spec(value: Seq<char>, max_len: nat) -> bool {
    0 < value.len() <= max_len && forall|i: int|
        0 <= i < value.len() ==> source_token_char(#[trigger] value[i])
}

/// Whether `value` is a source token of at most `max_len` characters.
pub fn valid_source_token(value: &str, max_len: usize) -> (r: bool)
    ensures
        r == valid_source_token_spec(value@, max_len as nat),
{
    let c = chars_of(value);
    if c.len() == 0 || c.len() > max_len {
        return false;
    }
    let mut i: usize = 0;
    while i < c.len()
        invariant
            i <= c@.len(),
            c@ == value@,
            forall|j: int| 0 <= j < i ==> source_token_char(#[trigger] c@[j]),
        decreases c.len() - i,
    {
        let ch = c[i];
        if !(is_ascii_alphanumeric(ch) || ch == '.' || ch == '_' || ch == '-' || ch == ':') {
            assert(!source_token_char(value@[i as int]));
            return false;
        }
        i = i + 1;
    }
    true
}

/// Where a capture came from: its capture target and its client.
#[derive(Clone, Debug, PartialEq, Eq)]
pub struct CaptureSource {
    pub target: String,
    pub client: String,
}

/// A capture source is a target token of at most 128 characters and a
/// client token of at most 32.
pub open spec fn valid_capture_source(s: CaptureSource) -> bool {
    valid_source_token_spec(s.target@, 128) && valid_source_token_spec(s.client@, 32)
}

impl CaptureSource {
    /// A capture source, when both tokens are valid.
    pub fn new(target: &str, client: &str) -> (r: Result<Self, CaptureEnvelopeError>)
        ensures
            match r {
                Ok(s) => s.target@ == target@ && s.client@ == client@ && valid_capture_source(s),
                Err(e) => e == CaptureEnvelopeError::InvalidCaptureSource
                    && !(valid_source_token_spec(target@, 128) && valid_source_token_spec(client@, 32)),
            },
    {
        if !valid_source_token(target, 128) || !valid_source_token(client, 32) {
            return Err(CaptureEnvelopeError::InvalidCaptureSource);
        }
        Ok(CaptureSource { target: target.to_owned(), client: client.to_owned() })
    }
}

/// What a capture envelope carries besides its provider payload.
#[derive(Clone, Debug, PartialEq, Eq)]
pub struct CaptureEnvelopeFields {
    pub provider: String,
    pub captured_at_us: i64,
    pub origin_identity: String,
    pub capture_source: Option<CaptureSource>,
    pub kind: ActivityKind,
    pub agent_id: Option<String>,
    pub agent_type: Option<String>,
}

/// An agent identifier or type: not blank, at most 512 bytes, no control
/// characters.
pub open spec fn valid_agent_text(v: Seq<char>) -> bool {
    &&& trim_spec(v).len() > 0
    &&& vstd::utf8::encode_utf8(v).len() <= 512
    &&& forall|i: int| 0 <= i < v.len() ==> !is_control_spec(#[trigger] v[i])
}

pub open spec fn opt_agent_ok(v: Option<String>) -> bool {
    match v {
        Some(s) => valid_agent_text(s@),
        None => true,
    }
}

/// The first activity-context rule an envelope breaks: only a subagent
/// activity carries agent details, and each must be valid agent text.
pub open spec fn agent_check(e: CaptureEnvelopeFields) -> Result<(), CaptureEnvelopeError> {
    if e.kind != ActivityKind::Subagent && (e.agent_id is Some || e.agent_type is Some) {
        Err(CaptureEnvelopeError::InvalidActivityContext)
    } else if !opt_agent_ok(e.agent_id) || !opt_agent_ok(e.agent_type) {
        Err(CaptureEnvelopeError::InvalidActivityContext)
    } else {
        Ok(())
    }
}

/// The first rule an envelope breaks, in the order they are checked.
pub open spec fn envelope_check(e: CaptureEnvelopeFields) -> Result<(), CaptureEnvelopeError> {
    if trim_spec(e.provider@).len() == 0 {
        Err(CaptureEnvelopeError::BlankProvider)
    } else if e.captured_at_us < 0 {
        Err(CaptureEnvelopeError::NegativeCaptureTime(e.captured_at_us))
    } else if trim_spec(e.origin_identity@).len() == 0 {
        Err(CaptureEnvelopeError::BlankOriginIdentity)
    } else if e.capture_source matches Some(s) && !valid_capture_source(s) {
        Err(CaptureEnvelopeError::InvalidCaptureSource)
    } else {
        agent_check(e)
    }
}

/// The rules a namespaced remote envelope can break: its origin is never
/// blank and its capture source is dropped.
pub open spec fn remote_check(e: CaptureEnvelopeFields) -> Result<(), CaptureEnvelopeError> {
    if trim_spec(e.provider@).len() == 0 {
        Err(CaptureEnvelopeError::BlankProvider)
    } else if e.captured_at_us < 0 {
        Err(CaptureEnvelopeError::NegativeCaptureTime(e.captured_at_us))
    } else {
        agent_check(e)
    }
}

proof fn lemma_trim_end_keeps_first(s: Seq<char>)
    requires
        s.len() > 0,
        !crate::text::is_whitespace_spec(s[0]),
    ensures
        crate::text::trim_end_spec(s).len() > 0,
    decreases s.len(),
{
    if s.len() > 1 && crate::text::is_whitespace_spec(s.last()) {
        lemma_trim_end_keeps_first(s.drop_last());
    }
}

proof fn lemma_not_blank(s: Seq<char>)
    requires
        s.len() > 0,
        !crate::text::is_whitespace_spec(s[0]),
    ensures
        trim_spec(s).len() > 0,
{
    crate::text::lemma_trim_start_at(s, 0);
    assert(s.skip(0) =~= s);
    lemma_trim_end_keeps_first(s);
}

fn blank(s: &str) -> (r: bool)
    ensures
        r == (trim_spec(s@).len() == 0),
{
    trim(chars_of(s).as_slice()).len() == 0
}

fn agent_text_ok(v: &Option<String>) -> (r: bool)
    ensures
        r == opt_agent_ok(*v),
{
    match v {
        None => true,
        Some(s) => {
            if blank(s.as_str()) || s.as_str().as_bytes().len() > 512 {
                return false;
            }
            let c = chars_of(s.as_str());
            let mut i: usize = 0;
            while i < c.len()
                invariant
                    i <= c@.len(),
                    c@ == s@,
                    opt_agent_ok(*v) == valid_agent_text(s@),
                    trim_spec(s@).len() > 0,
                    vstd::utf8::encode_utf8(s@).len() <= 512,
                    forall|j: int| 0 <= j < i ==> !is_control_spec(#[trigger] c@[j]),
                decreases c.len() - i,
            {
                if is_control(c[i]) {
                    assert(is_control_spec(s@[i as int]));
                    return false;
                }
                i = i + 1;
            }
            true
        },
    }
}

impl CaptureEnvelopeFields {
    /// Checks an envelope (see `envelope_check`).
    pub fn validate(&self) -> (r: Result<(), CaptureEnvelopeError>)
        ensures
            r == envelope_check(*self),
    {
        if blank(self.provider.as_str()) {
            return Err(CaptureEnvelopeError::BlankProvider);
        }
        if self.captured_at_us < 0 {
            return Err(CaptureEnvelopeError::NegativeCaptureTime(self.captured_at_us));
        }
        if blank(self.origin_identity.as_str()) {
            return Err(CaptureEnvelopeError::BlankOriginIdentity);
        }
        if let Some(source) = &self.capture_source {
            if !valid_source_token(source.target.as_str(), 128) || !valid_source_token(
                source.client.as_str(),
                32,
            ) {
                return Err(CaptureEnvelopeError::InvalidCaptureSource);
            }
        }
        let subagent = match self.kind {
            ActivityKind::Subagent => true,
            ActivityKind::User => false,
        };
        if !subagent && (self.agent_id.is_some() || self.agent_type.is_some()) {
            return Err(CaptureEnvelopeError::InvalidActivityContext);
        }
        if !agent_text_ok(&self.agent_id) || !agent_text_ok(&self.agent_type) {
            return Err(CaptureEnvelopeError::InvalidActivityContext);
        }
        Ok(())
    }

    /// An envelope received from another installation, namespaced by that
    /// installation's id: the session becomes `remote:<id>:<session>`, the
    /// origin `remote:<id>:<origin>`, and the sender's capture source is
    /// dropped. `session_id` is the payload's session id when the payload is
    /// an object holding one as a string.
    pub fn into_remote_namespace(self, source_instance_id: &str, session_id: Option<&str>) -> (r:
        Result<(CaptureEnvelopeFields, String), CaptureEnvelopeError>)
        ensures
            !valid_source_token_spec(source_instance_id@, 64) ==> r
                == Err::<(CaptureEnvelopeFields, String), CaptureEnvelopeError>(
                CaptureEnvelopeError::InvalidRemoteSource,
            ),
            valid_source_token_spec(source_instance_id@, 64) ==> match session_id {
                None => r == Err::<(CaptureEnvelopeFields, String), CaptureEnvelopeError>(
                    CaptureEnvelopeError::InvalidRemotePayload,
                ),
                Some(sid) => match remote_check(self) {
                    Ok(()) => r matches Ok((f, s)) && s@ == "remote:"@ + source_instance_id@ + ":"@
                        + sid@ && f.origin_identity@ == "remote:"@ + source_instance_id@ + ":"@
                        + self.origin_identity@ && f.provider == self.provider && f.captured_at_us
                        == self.captured_at_us && f.capture_source is None && f.kind == self.kind
                        && f.agent_id == self.agent_id && f.agent_type == self.agent_type
                        && envelope_check(f) is Ok,
                    Err(x) => r == Err::<(CaptureEnvelopeFields, String), CaptureEnvelopeError>(x),
                },
            },
    {
        if !valid_source_token(source_instance_id, 64) {
            return Err(CaptureEnvelopeError::InvalidRemoteSource);
        }
        let sid = match session_id {
            Some(s) => s,
            None => return Err(CaptureEnvelopeError::InvalidRemotePayload),
        };
        let mut session: Vec<char> = Vec::new();
        push_str(&mut session, "remote:");
        push_str(&mut session, source_instance_id);
        push_str(&mut session, ":");
        push_str(&mut session, sid);
        let mut origin: Vec<char> = Vec::new();
        push_str(&mut origin, "remote:");
        push_str(&mut origin, source_instance_id);
        push_str(&mut origin, ":");
        push_str(&mut origin, self.origin_identity.as_str());
        let fields = CaptureEnvelopeFields {
            provider: self.provider,
            captured_at_us: self.captured_at_us,
            origin_identity: string_from_chars(origin.as_slice()),
            capture_source: None,
            kind: self.kind,
            agent_id: self.agent_id,
            agent_type: self.agent_type,
        };
        proof {
            reveal_strlit("remote:");
            lemma_not_blank(fields.origin_identity@);
        }
        match fields.validate() {
            Ok(()) => Ok((fields, string_from_chars(session.as_slice()))),
            Err(e) => Err(e),
        }
    }
}

// ---------------------------------------------------------------------------
// Pending file names
// ---------------------------------------------------------------------------
/// A pending item's file: its extension is `pending`.
pub open spec fn is_pending_name_spec(name: Seq<char>) -> bool {
    crate::capture_source::extension_of(name) == Some("pending"@)
}

/// Whether a file name is a pending item's.
pub fn is_pending_name(name: &str) -> (r: bool)
    ensures
        r == is_pending_name_spec(name@),
{
    let c = chars_of(name);
    let dot = crate::collector::last_index_exec(c.as_slice(), '.');
    proof {
        crate::collector::lemma_last_index_bound(c@, '.');
        reveal_strlit("pending");
    }
    match dot {
        Some(d) => {
            if d == 0 {
                return false;
            }
            let len = c.len();
            assert(d < len);
            let ext = crate::text::sub_vec(c.as_slice(), d + 1, len);
            assert(ext@ =~= c@.skip(d + 1));
            crate::text::eq_str(ext.as_slice(), "pending")
        },
        None => false,
    }
}

/// A pending result item's file: its name ends with `.result.pending`.
pub open spec fn is_result_pending_name_spec(name: Seq<char>) -> bool {
    crate::text::ends_with_spec(name, ".result.pending"@)
}

pub fn is_result_pending_name(name: &str) -> (r: bool)
    ensures
        r == is_result_pending_name_spec(name@),
{
    crate::text::ends_with_str(chars_of(name).as_slice(), ".result.pending")
}

/// A character of a local file name: ASCII letter or digit, `.`, `-`, `_`.
pub open spec fn local_name_char(c: char) -> bool {
    is_ascii_alphanumeric_spec(c) || c == '.' || c == '-' || c == '_'
}

/// A file name the spool keeps in its own directory: at most 160 bytes,
/// ending with `suffix`, of local name characters.
pub open spec fn valid_local_name_spec(name: Seq<char>, suffix: Seq<char>) -> bool {
    &&& vstd::utf8::encode_utf8(name).len() <= 160
    &&& crate::text::ends_with_spec(name, suffix)
    &&& forall|i: int| 0 <= i < name.len() ==> local_name_char(#[trigger] name[i])
}

/// Checks a local file name (see `valid_local_name_spec`).
pub fn validate_local_name(name: &str, suffix: &str) -> (r: Result<(), SpoolError>)
    ensures
        r is Ok <==> valid_local_name_spec(name@, suffix@),
        r is Err ==> r == Err::<(), SpoolError>(SpoolError::InvalidQueueState),
{
    let c = chars_of(name);
    if name.as_bytes().len() > 160 || !crate::text::ends_with_str(c.as_slice(), suffix) {
        return Err(SpoolError::InvalidQueueState);
    }
    let mut i: usize = 0;
    while i < c.len()
        invariant
            i <= c@.len(),
            c@ == name@,
            forall|j: int| 0 <= j < i ==> local_name_char(#[trigger] c@[j]),
        decreases c.len() - i,
    {
        let ch = c[i];
        if !(is_ascii_alphanumeric(ch) || ch == '.' || ch == '-' || ch == '_') {
            assert(!local_name_char(name@[i as int]));
            return Err(SpoolError::InvalidQueueState);
        }
        i = i + 1;
    }
    Ok(())
}

// ---------------------------------------------------------------------------
// The queue
// ---------------------------------------------------------------------------
/// A pending item, by its file name in the spool directory.
#[derive(Debug, PartialEq, Eq)]
pub struct SpoolItem {
    name: String,
}

impl View for SpoolItem {
    type V = Seq<char>;

    closed spec fn view(&self) -> Seq<char> {
        self.name@
    }
}

impl SpoolItem {
    /// The item's file name.
    pub fn name(&self) -> (r: &str)
        ensures
            r@ == self@,
    {
        self.name.as_str()
    }
}

pub open spec fn item_views(v: Seq<SpoolItem>) -> Seq<Seq<char>> {
    v.map_values(|x: SpoolItem| x@)
}

pub open spec fn string_views(v: Seq<String>) -> Seq<Seq<char>> {
    v.map_values(|x: String| x@)
}

/// A capture spool: its directory, the items set aside until restart, the
/// rotating offset of recovery passes, and when the next result sweep is
/// due.
#[derive(Debug)]
pub struct Spool {
    directory: String,
    deferred: Vec<String>,
    recovery_offset: usize,
    next_result_sweep_at_us: i64,
}

/// The state of a spool.
pub struct SpoolView {
    pub directory: Seq<char>,
    pub deferred: Set<Seq<char>>,
    pub recovery_offset: usize,
    pub next_result_sweep_at_us: i64,
}

impl View for Spool {
    type V = SpoolView;

    closed spec fn view(&self) -> SpoolView {
        SpoolView {
            directory: self.directory@,
            deferred: string_views(self.deferred@).to_set(),
            recovery_offset: self.recovery_offset,
            next_result_sweep_at_us: self.next_result_sweep_at_us,
        }
    }
}

/// The pending names a scan takes, in listing order: pending files not
/// excluded, at most `MAX_PENDING_ITEMS` of them.
pub open spec fn selected_names(listing: Seq<Seq<char>>, excluded: Set<Seq<char>>) -> Seq<Seq<char>>
    decreases listing.len(),
{
    if listing.len() == 0 {
        Seq::empty()
    } else {
        let prev = selected_names(listing.drop_last(), excluded);
        if prev.len() < 1024 && is_pending_name_spec(listing.last()) && !excluded.contains(
            listing.last(),
        ) {
            prev.push(listing.last())
        } else {
            prev
        }
    }
}

/// The pending names of a listing, sorted.
pub open spec fn pending_spec(listing: Seq<Seq<char>>, excluded: Set<Seq<char>>) -> Seq<Seq<char>> {
    crate::text::sorted_seq_of(selected_names(listing, excluded).to_set())
}

/// The names a recovery pass reads: a batch of at most
/// `RECOVERY_BATCH_SIZE` of the sorted pending names, starting at the
/// rotating offset and wrapping around.
pub open spec fn recovery_spec(paths: Seq<Seq<char>>, offset: usize) -> Seq<Seq<char>> {
    if paths.len() == 0 {
        Seq::empty()
    } else {
        let batch = if paths.len() < 32 {
            paths.len() as int
        } else {
            32
        };
        let start = (offset as int) % (paths.len() as int);
        Seq::new(batch as nat, |k: int| paths[(start + k) % (paths.len() as int)])
    }
}

/// The offset after a pass of `batch` items (wrapping around `usize`).
pub open spec fn next_offset(offset: usize, batch: int) -> usize {
    ((offset + batch) % (usize::MAX as int + 1)) as usize
}

fn contains_name(v: &Vec<String>, name: &str) -> (r: bool)
    ensures
        r == string_views(v@).contains(name@),
{
    let n = chars_of(name);
    let mut i: usize = 0;
    while i < v.len()
        invariant
            i <= v@.len(),
            n@ == name@,
            forall|j: int| 0 <= j < i ==> v@[j]@ != name@,
        decreases v.len() - i,
    {
        if crate::text::chars_eq(chars_of(v[i].as_str()).as_slice(), n.as_slice()) {
            assert(string_views(v@)[i as int] == name@);
            return true;
        }
        i = i + 1;
    }
    proof {
        if string_views(v@).contains(name@) {
            let j = choose|j: int| 0 <= j < v@.len() && string_views(v@)[j] == name@;
            assert(v@[j]@ == name@);
        }
    }
    false
}

impl Spool {
    /// A spool over a directory, with nothing deferred.
    pub fn open(directory: &str) -> (r: Spool)
        ensures
            r@.directory == directory@,
            r@.deferred == Set::<Seq<char>>::empty(),
            r@.recovery_offset == 0,
            r@.next_result_sweep_at_us == 0,
    {
        let s = Spool {
            directory: directory.to_owned(),
            deferred: Vec::new(),
            recovery_offset: 0,
            next_result_sweep_at_us: 0,
        };
        assert(string_views(s.deferred@).to_set() =~= Set::<Seq<char>>::empty());
        s
    }

    /// The spool directory.
    pub fn directory(&self) -> (r: &str)
        ensures
            r@ == self@.directory,
    {
        self.directory.as_str()
    }

    /// The sorted pending names of a directory listing, without the
    /// deferred items when `skip_deferred`.
    fn pending_names(&self, listing: &Vec<String>, skip_deferred: bool) -> (r: Vec<Vec<char>>)
        ensures
            crate::text::views(r@) == pending_spec(
                string_views(listing@),
                if skip_deferred {
                    self@.deferred
                } else {
                    Set::empty()
                },
            ),
    {
        let ghost excluded = if skip_deferred {
            self@.deferred
        } else {
            Set::<Seq<char>>::empty()
        };
        let ghost lv = string_views(listing@);
        let mut sorted: Vec<Vec<char>> = Vec::new();
        let mut count: usize = 0;
        let mut i: usize = 0;
        assert(lv.take(0) =~= Seq::<Seq<char>>::empty());
        assert(crate::text::views(sorted@).to_set() =~= Set::<Seq<char>>::empty());
        while i < listing.len()
            invariant
                i <= listing@.len(),
                lv == string_views(listing@),
                excluded == (if skip_deferred {
                    self@.deferred
                } else {
                    Set::<Seq<char>>::empty()
                }),
                count == selected_names(lv.take(i as int), excluded).len(),
                crate::text::strictly_sorted(crate::text::views(sorted@)),
                crate::text::views(sorted@).to_set() == selected_names(
                    lv.take(i as int),
                    excluded,
                ).to_set(),
            decreases listing.len() - i,
        {
            let name = listing[i].as_str();
            proof {
                assert(lv.take(i + 1).drop_last() =~= lv.take(i as int));
                assert(lv.take(i + 1).last() == name@);
            }
            let take = count < 1024 && is_pending_name(name) && !(skip_deferred && contains_name(
                &self.deferred,
                name,
            ));
            if take {
                let ghost before = selected_names(lv.take(i as int), excluded);
                crate::text::insert_sorted(&mut sorted, chars_of(name));
                count = count + 1;
                proof {
                    before.lemma_push_to_set_commute(name@);
                }
            }
            i = i + 1;
        }
        assert(lv.take(listing@.len() as int) =~= lv);
        proof {
            crate::text::lemma_sorted_seq_of(crate::text::views(sorted@));
        }
        sorted
    }

    fn items_of(names: Vec<Vec<char>>) -> (r: Vec<SpoolItem>)
        ensures
            item_views(r@) == crate::text::views(names@),
    {
        let mut out: Vec<SpoolItem> = Vec::new();
        let mut i: usize = 0;
        while i < names.len()
            invariant
                i <= names@.len(),
                item_views(out@) == crate::text::views(names@).take(i as int),
            decreases names.len() - i,
        {
            let ghost before = item_views(out@);
            let item = SpoolItem { name: string_from_chars(names[i].as_slice()) };
            assert(item@ == crate::text::views(names@)[i as int]);
            out.push(item);
            assert(item_views(out@) =~= before.push(item@));
            assert(crate::text::views(names@).take(i + 1) =~= crate::text::views(names@).take(
                i as int,
            ).push(crate::text::views(names@)[i as int]));
            i = i + 1;
        }
        assert(crate::text::views(names@).take(names@.len() as int) =~= crate::text::views(names@));
        out
    }

    /// Every pending item of a directory listing, sorted by name.
    pub fn pending(&self, listing: &Vec<String>) -> (r: Vec<SpoolItem>)
        ensures
            item_views(r@) == pending_spec(string_views(listing@), Set::empty()),
    {
        Spool::items_of(self.pending_names(listing, false))
    }

    /// The items the next recovery pass reads (see `recovery_spec`), over
    /// the pending items that are not deferred; the offset moves on by the
    /// batch.
    pub fn recovery_candidates(&mut self, listing: &Vec<String>) -> (r: Vec<SpoolItem>)
        ensures
            item_views(r@) == recovery_spec(
                pending_spec(string_views(listing@), old(self)@.deferred),
                old(self)@.recovery_offset,
            ),
            final(self)@.directory == old(self)@.directory,
            final(self)@.deferred == old(self)@.deferred,
            final(self)@.next_result_sweep_at_us == old(self)@.next_result_sweep_at_us,
            final(self)@.recovery_offset == next_offset(old(self)@.recovery_offset, r@.len() as int),
    {
        let paths = self.pending_names(listing, true);
        let ghost pv = crate::text::views(paths@);
        let len = paths.len();
        if len == 0 {
            let ghost o = self.recovery_offset;
            assert(o == next_offset(o, 0)) by (nonlinear_arith)
                requires
                    o <= usize::MAX,
            ;
            return Vec::new();
        }
        let batch: usize = if len < 32 {
            len
        } else {
            32
        };
        let start = self.recovery_offset % len;
        let offset = self.recovery_offset;
        self.recovery_offset = if offset > usize::MAX - batch {
            offset - (usize::MAX - batch) - 1
        } else {
            offset + batch
        };
        let mut out: Vec<SpoolItem> = Vec::new();
        let mut k: usize = 0;
        while k < batch
            invariant
                k <= batch <= len,
                batch == (if len < 32 { len } else { 32 }),
                len == paths@.len() > 0,
                start < len,
                start == offset % len,
                pv == crate::text::views(paths@),
                item_views(out@).len() == k,
                forall|j: int| 0 <= j < k ==> #[trigger] item_views(out@)[j] == pv[(start + j) % (len as int)],
            decreases batch - k,
        {
            let idx = if k < len - start {
                start + k
            } else {
                k - (len - start)
            };
            assert(idx as int == (start + k) % (len as int)) by (nonlinear_arith)
                requires
                    start < len,
                    k < len,
                    idx == if k < len - start {
                        start + k
                    } else {
                        k - (len - start)
                    },
            ;
            let ghost before = item_views(out@);
            let item = SpoolItem { name: string_from_chars(paths[idx].as_slice()) };
            assert(item@ == pv[idx as int]);
            out.push(item);
            assert(item_views(out@) =~= before.push(item@));
            k = k + 1;
        }
        assert(self.recovery_offset == next_offset(offset, batch as int)) by (nonlinear_arith)
            requires
                self.recovery_offset == if offset > usize::MAX - batch {
                    offset - (usize::MAX - batch) - 1
                } else {
                    offset + batch
                },
                batch <= 32,
        ;
        assert(item_views(out@) =~= recovery_spec(pv, offset));
        out
    }

    /// The items a recovery pass reads and hands on (see
    /// `recovery_candidates`).
    pub fn drain(&mut self, listing: &Vec<String>) -> (r: Vec<SpoolItem>)
        ensures
            item_views(r@) == recovery_spec(
                pending_spec(string_views(listing@), old(self)@.deferred),
                old(self)@.recovery_offset,
            ),
            final(self)@.directory == old(self)@.directory,
            final(self)@.deferred == old(self)@.deferred,
            final(self)@.next_result_sweep_at_us == old(self)@.next_result_sweep_at_us,
            final(self)@.recovery_offset == next_offset(old(self)@.recovery_offset, r@.len() as int),
    {
        self.recovery_candidates(listing)
    }

    /// Sets an item aside until restart: recovery passes skip it.
    pub fn defer(&mut self, item: &SpoolItem)
        ensures
            final(self)@.deferred == old(self)@.deferred.insert(item@),
            final(self)@.directory == old(self)@.directory,
            final(self)@.recovery_offset == old(self)@.recovery_offset,
            final(self)@.next_result_sweep_at_us == old(self)@.next_result_sweep_at_us,
    {
        if contains_name(&self.deferred, item.name.as_str()) {
            assert(string_views(self.deferred@).to_set().insert(item@) =~= string_views(
                self.deferred@,
            ).to_set());
            return;
        }
        let ghost before = string_views(self.deferred@);
        self.deferred.push(item.name().to_owned());
        assert(string_views(self.deferred@) =~= before.push(item@));
        proof {
            before.lemma_push_to_set_commute(item@);
        }
    }

    /// Forgets items that left the queue: they are no longer deferred.
    pub fn acknowledge_batch(&mut self, items: Vec<SpoolItem>)
        ensures
            final(self)@.deferred == old(self)@.deferred.difference(item_views(items@).to_set()),
            final(self)@.directory == old(self)@.directory,
            final(self)@.recovery_offset == old(self)@.recovery_offset,
            final(self)@.next_result_sweep_at_us == old(self)@.next_result_sweep_at_us,
    {
        let mut names: Vec<String> = Vec::new();
        let mut i: usize = 0;
        while i < items.len()
            invariant
                i <= items@.len(),
                string_views(names@) == item_views(items@).take(i as int),
            decreases items.len() - i,
        {
            let ghost before = string_views(names@);
            let n = items[i].name().to_owned();
            assert(n@ == item_views(items@)[i as int]);
            names.push(n);
            assert(string_views(names@) =~= before.push(n@));
            assert(item_views(items@).take(i + 1) =~= item_views(items@).take(i as int).push(
                item_views(items@)[i as int],
            ));
            i = i + 1;
        }
        assert(item_views(items@).take(items@.len() as int) =~= item_views(items@));
        let ghost gone = string_views(names@).to_set();
        let ghost old_set = string_views(self.deferred@).to_set();
        let mut kept: Vec<String> = Vec::new();
        let mut j: usize = 0;
        while j < self.deferred.len()
            invariant
                j <= self.deferred@.len(),
                gone == string_views(names@).to_set(),
                old_set == string_views(self.deferred@).to_set(),
                string_views(kept@).to_set() == string_views(self.deferred@).take(j as int).to_set().difference(gone),
            decreases self.deferred.len() - j,
        {
            let d = self.deferred[j].as_str();
            let ghost prefix = string_views(self.deferred@).take(j as int);
            assert(string_views(self.deferred@).take(j + 1) =~= prefix.push(d@));
            proof {
                prefix.lemma_push_to_set_commute(d@);
            }
            if !contains_name(&names, d) {
                let ghost before = string_views(kept@);
                kept.push(self.deferred[j].as_str().to_owned());
                assert(string_views(kept@) =~= before.push(d@));
                proof {
                    before.lemma_push_to_set_commute(d@);
                }
                assert(string_views(kept@).to_set() =~= prefix.push(d@).to_set().difference(gone));
            } else {
                assert(string_views(kept@).to_set() =~= prefix.push(d@).to_set().difference(gone));
            }
            j = j + 1;
        }
        assert(string_views(self.deferred@).take(self.deferred@.len() as int) =~= string_views(
            self.deferred@,
        ));
        self.deferred = kept;
    }

    /// Forgets one item that left the queue.
    pub fn acknowledge(&mut self, item: SpoolItem)
        ensures
            final(self)@.deferred == old(self)@.deferred.remove(item@),
            final(self)@.directory == old(self)@.directory,
            final(self)@.recovery_offset == old(self)@.recovery_offset,
            final(self)@.next_result_sweep_at_us == old(self)@.next_result_sweep_at_us,
    {
        let ghost name = item@;
        let mut items: Vec<SpoolItem> = Vec::new();
        items.push(item);
        assert(item_views(items@) =~= seq![name]);
        assert(item_views(items@).contains(name)) by {
            assert(item_views(items@)[0] == name);
        }
        assert(item_views(items@).to_set() =~= set![name]);
        self.acknowledge_batch(items);
        assert(old(self)@.deferred.difference(set![name]) =~= old(self)@.deferred.remove(name));
    }

    /// Whether a result sweep is due at `now_us`; when it is, the next one
    /// is scheduled `sweep_interval_us` later (saturating).
    pub fn expire_result_items_if_due(&mut self, now_us: i64, sweep_interval_us: i64) -> (r: bool)
        ensures
            r == (now_us >= old(self)@.next_result_sweep_at_us),
            r ==> final(self)@.next_result_sweep_at_us == saturating_i64(now_us + sweep_interval_us),
            !r ==> final(self)@.next_result_sweep_at_us == old(self)@.next_result_sweep_at_us,
            (r, final(self)@.next_result_sweep_at_us) == result_sweep(
                old(self)@.next_result_sweep_at_us,
                now_us,
                sweep_interval_us,
            ),
            final(self)@.directory == old(self)@.directory,
            final(self)@.deferred == old(self)@.deferred,
            final(self)@.recovery_offset == old(self)@.recovery_offset,
    {
        if now_us < self.next_result_sweep_at_us {
            return false;
        }
        self.next_result_sweep_at_us = saturating_add_i64(now_us, sweep_interval_us);
        true
    }

    /// A failed sweep: the next recovery pass sweeps again.
    pub fn result_sweep_failed(&mut self)
        ensures
            final(self)@.next_result_sweep_at_us == 0,
            final(self)@.directory == old(self)@.directory,
            final(self)@.deferred == old(self)@.deferred,
            final(self)@.recovery_offset == old(self)@.recovery_offset,
    {
        self.next_result_sweep_at_us = 0;
    }
}

/// An integer clamped to the range of `i64`.
/// A result sweep asked for at `now` when the next one is scheduled at
/// `next_at`: whether it runs, and when the next one is scheduled.
pub open spec fn result_sweep(next_at: i64, now: i64, interval: i64) -> (bool, i64) {
    if now >= next_at {
        (true, saturating_i64(now + interval))
    } else {
        (false, next_at)
    }
}

/// A full result sweep runs at most once per interval: after one ran at
/// `t`, a later request at `t2` runs the next exactly when a whole interval
/// has passed (`t2 >= t + interval`; at the latest time when that sum does
/// not fit).
pub proof fn law_result_sweep_once_per_interval(next_at: i64, t: i64, t2: i64, interval: i64)
    requires
        result_sweep(next_at, t, interval).0,
        0 <= interval,
    ensures
        result_sweep(result_sweep(next_at, t, interval).1, t2, interval).0 <==> if t + interval
            <= i64::MAX {
            t2 >= t + interval
        } else {
            t2 == i64::MAX
        },
{
}

pub open spec fn saturating_i64(v: int) -> i64 {
    if v < i64::MIN {
        i64::MIN
    } else if v > i64::MAX {
        i64::MAX
    } else {
        v as i64
    }
}

pub fn saturating_add_i64(a: i64, b: i64) -> (r: i64)
    ensures
        r == saturating_i64(a + b),
{
    if b > 0 && a > i64::MAX - b {
        i64::MAX
    } else if b < 0 && a < i64::MIN - b {
        i64::MIN
    } else {
        a + b
    }
}

pub fn saturating_sub_i64(a: i64, b: i64) -> (r: i64)
    ensures
        r == saturating_i64(a - b),
{
    if b < 0 && a > i64::MAX + b {
        i64::MAX
    } else if b > 0 && a < i64::MIN + b {
        i64::MIN
    } else {
        a - b
    }
}

// ---------------------------------------------------------------------------
// The usage record
// ---------------------------------------------------------------------------
/// A pending file a removal accounts for, with its size.
#[derive(Clone, Debug, PartialEq, Eq)]
pub struct UsageEntry {
    pub pending_name: String,
    pub bytes: u64,
}

/// The operation a usage record announces before it happens.
#[derive(Clone, Debug, PartialEq, Eq)]
pub enum UsageOperation {
    Enqueue { pending_name: String, temporary_name: String, bytes: u64 },
    Remove { entries: Vec<UsageEntry> },
}

/// The spool's usage record: how many pending items and bytes it holds,
/// the operation in flight, and a checksum over the rest.
#[derive(Clone, Debug, PartialEq, Eq)]
pub struct UsageState {
    pub schema_version: u8,
    pub generation: u64,
    pub items: u64,
    pub bytes: u64,
    pub operation: Option<UsageOperation>,
    pub checksum: String,
}

/// `a - b`, or zero below zero.
pub open spec fn saturating_sub_nat(a: int, b: int) -> int {
    if a >= b {
        a - b
    } else {
        0
    }
}

/// `a + b`, or `u64::MAX` above it.
pub open spec fn saturating_add_u64(a: int, b: int) -> int {
    if a + b > u64::MAX {
        u64::MAX as int
    } else {
        a + b
    }
}

impl UsageState {
    /// A record rebuilt from a directory scan.
    pub fn rebuilt(items: u64, bytes: u64) -> (r: UsageState)
        ensures
            r.schema_version == USAGE_SCHEMA_VERSION && r.generation == 0 && r.items == items
                && r.bytes == bytes && r.operation is None && r.checksum@.len() == 0,
    {
        UsageState {
            schema_version: USAGE_SCHEMA_VERSION,
            generation: 0,
            items,
            bytes,
            operation: None,
            checksum: String::new(),
        }
    }
}

/// The item count as a `usize`, saturating.
pub open spec fn items_as_usize(items: u64) -> usize {
    if items > usize::MAX {
        usize::MAX
    } else {
        items as usize
    }
}

/// What admitting an item of `incoming` bytes does to a record: full when
/// the record holds `MAX_PENDING_ITEMS` items or the bytes would exceed
/// `MAX_PENDING_BYTES`; otherwise one more item and the bytes, with the
/// enqueue announced.
pub open spec fn reserve_spec(state: UsageState, pending_name: String, temporary_name: String, incoming: u64) -> Result<UsageState, SpoolError> {
    if !valid_local_name_spec(pending_name@, ".pending"@) || !valid_local_name_spec(
        temporary_name@,
        ".tmp"@,
    ) {
        Err(SpoolError::InvalidQueueState)
    } else if items_as_usize(state.items) >= 1024 || saturating_add_u64(state.bytes as int, incoming as int)
        > MAX_PENDING_BYTES {
        Err(SpoolError::QueueFull { items: items_as_usize(state.items), bytes: state.bytes })
    } else {
        Ok(
            UsageState {
                items: (state.items + 1) as u64,
                bytes: (state.bytes + incoming) as u64,
                operation: Some(UsageOperation::Enqueue { pending_name, temporary_name, bytes: incoming }),
                ..state
            },
        )
    }
}

/// Reserves room for an item (see `reserve_spec`).
pub fn reserve_enqueue(state: UsageState, pending_name: String, temporary_name: String, incoming: u64) -> (r: Result<UsageState, SpoolError>)
    ensures
        r == reserve_spec(state, pending_name, temporary_name, incoming),
{
    validate_local_name(pending_name.as_str(), ".pending")?;
    validate_local_name(temporary_name.as_str(), ".tmp")?;
    let items: usize = if state.items > usize::MAX as u64 {
        usize::MAX
    } else {
        state.items as usize
    };
    let total: u64 = if state.bytes > u64::MAX - incoming {
        u64::MAX
    } else {
        state.bytes + incoming
    };
    if items >= 1024 || total > MAX_PENDING_BYTES {
        return Err(SpoolError::QueueFull { items, bytes: state.bytes });
    }
    Ok(
        UsageState {
            items: state.items + 1,
            bytes: state.bytes + incoming,
            operation: Some(UsageOperation::Enqueue { pending_name, temporary_name, bytes: incoming }),
            ..state
        },
    )
}

/// How many of the entries are gone (`present[k]`: entry `k` still
/// exists).
pub open spec fn missing_count(entries: Seq<UsageEntry>, present: Seq<bool>) -> int
    decreases entries.len(),
{
    if entries.len() == 0 {
        0
    } else {
        missing_count(entries.drop_last(), present) + if entry_present(present, entries.len() - 1) {
            0int
        } else {
            1int
        }
    }
}

/// The bytes of the entries that are gone.
pub open spec fn missing_bytes(entries: Seq<UsageEntry>, present: Seq<bool>) -> int
    decreases entries.len(),
{
    if entries.len() == 0 {
        0
    } else {
        missing_bytes(entries.drop_last(), present) + if entry_present(present, entries.len() - 1) {
            0int
        } else {
            entries.last().bytes as int
        }
    }
}

pub open spec fn entry_present(present: Seq<bool>, k: int) -> bool {
    0 <= k < present.len() && present[k]
}

/// Every entry names a pending file of the spool.
pub open spec fn entries_valid(entries: Seq<UsageEntry>) -> bool {
    forall|k: int| 0 <= k < entries.len() ==> valid_local_name_spec(#[trigger] entries[k].pending_name@, ".pending"@)
}

/// What completing an interrupted operation does to a record. An enqueue
/// whose pending file is not there (`present[0]`) did not happen: its item
/// and bytes are given back and its temporary file is removed. A removal
/// gives back every entry whose file is gone. The operation is cleared.
pub open spec fn reconcile_spec(state: UsageState, present: Seq<bool>) -> Result<(UsageState, Option<Seq<char>>), SpoolError> {
    match state.operation {
        None => Ok((state, None)),
        Some(UsageOperation::Enqueue { pending_name, temporary_name, bytes }) => if !valid_local_name_spec(
            pending_name@,
            ".pending"@,
        ) || !valid_local_name_spec(temporary_name@, ".tmp"@) {
            Err(SpoolError::InvalidQueueState)
        } else if entry_present(present, 0) {
            Ok((UsageState { operation: None, ..state }, None))
        } else {
            Ok(
                (
                    UsageState {
                        items: saturating_sub_nat(state.items as int, 1) as u64,
                        bytes: saturating_sub_nat(state.bytes as int, bytes as int) as u64,
                        operation: None,
                        ..state
                    },
                    Some(temporary_name@),
                ),
            )
        },
        Some(UsageOperation::Remove { entries }) => if !entries_valid(entries@) {
            Err(SpoolError::InvalidQueueState)
        } else {
            Ok(
                (
                    UsageState {
                        items: saturating_sub_nat(state.items as int, missing_count(entries@, present))
                            as u64,
                        bytes: saturating_sub_nat(state.bytes as int, missing_bytes(entries@, present))
                            as u64,
                        operation: None,
                        ..state
                    },
                    None,
                ),
            )
        },
    }
}

fn present_at(present: &Vec<bool>, k: usize) -> (r: bool)
    ensures
        r == entry_present(present@, k as int),
{
    k < present.len() && present[k]
}

/// Completes an interrupted operation (see `reconcile_spec`); the second
/// result is a temporary file to remove.
pub fn reconcile_usage_operation(state: UsageState, present: &Vec<bool>) -> (r: Result<(UsageState, Option<String>), SpoolError>)
    ensures
        match reconcile_spec(state, present@) {
            Ok((s, t)) => r matches Ok((s2, t2)) && s2 == s && match (t, t2) {
                (Some(a), Some(b)) => a == b@,
                (None, None) => true,
                _ => false,
            },
            Err(e) => r == Err::<(UsageState, Option<String>), SpoolError>(e),
        },
{
    let ghost st = state;
    let UsageState { schema_version, generation, items, bytes, operation, checksum } = state;
    match operation {
        None => Ok((UsageState { schema_version, generation, items, bytes, operation: None, checksum }, None)),
        Some(UsageOperation::Enqueue { pending_name, temporary_name, bytes: reserved }) => {
            validate_local_name(pending_name.as_str(), ".pending")?;
            validate_local_name(temporary_name.as_str(), ".tmp")?;
            if present_at(present, 0) {
                Ok((UsageState { schema_version, generation, items, bytes, operation: None, checksum }, None))
            } else {
                let new_items = if items >= 1 { items - 1 } else { 0 };
                let new_bytes = if bytes >= reserved { bytes - reserved } else { 0 };
                Ok(
                    (
                        UsageState {
                            schema_version,
                            generation,
                            items: new_items,
                            bytes: new_bytes,
                            operation: None,
                            checksum,
                        },
                        Some(temporary_name),
                    ),
                )
            }
        },
        Some(UsageOperation::Remove { entries }) => {
            let mut new_items = items;
            let mut new_bytes = bytes;
            let mut k: usize = 0;
            while k < entries.len()
                invariant
                    k <= entries@.len(),
                    st == state,
                    st.operation == Some(UsageOperation::Remove { entries }),
                    st.items == items,
                    st.bytes == bytes,
                    new_items == saturating_sub_nat(items as int, missing_count(entries@.take(k as int), present@)),
                    new_bytes == saturating_sub_nat(bytes as int, missing_bytes(entries@.take(k as int), present@)),
                    forall|j: int| 0 <= j < k ==> valid_local_name_spec(#[trigger] entries@[j].pending_name@, ".pending"@),
                decreases entries.len() - k,
            {
                let ghost prev = entries@.take(k as int);
                assert(entries@.take(k + 1).drop_last() =~= prev);
                assert(entries@.take(k + 1).last() == entries@[k as int]);
                match validate_local_name(entries[k].pending_name.as_str(), ".pending") {
                    Ok(()) => {},
                    Err(e) => {
                        assert(!entries_valid(entries@)) by {
                            assert(!valid_local_name_spec(entries@[k as int].pending_name@, ".pending"@));
                        }
                        return Err(e);
                    },
                }
                if !present_at(present, k) {
                    new_items = if new_items >= 1 { new_items - 1 } else { 0 };
                    let b = entries[k].bytes;
                    new_bytes = if new_bytes >= b { new_bytes - b } else { 0 };
                }
                k = k + 1;
            }
            assert(entries@.take(entries@.len() as int) =~= entries@);
            Ok(
                (
                    UsageState {
                        schema_version,
                        generation,
                        items: new_items,
                        bytes: new_bytes,
                        operation: None,
                        checksum,
                    },
                    None,
                ),
            )
        },
    }
}

impl UsageState {
    /// The record with a removal announced.
    pub fn with_removal(self, entries: Vec<UsageEntry>) -> (r: UsageState)
        ensures
            r == (UsageState { operation: Some(UsageOperation::Remove { entries }), ..self }),
    {
        UsageState { operation: Some(UsageOperation::Remove { entries }), ..self }
    }

    /// The record's next generation, as it is persisted.
    pub fn next_generation(self) -> (r: Result<UsageState, SpoolError>)
        ensures
            self.generation < u64::MAX ==> r == Ok::<UsageState, SpoolError>(
                UsageState { generation: (self.generation + 1) as u64, ..self },
            ),
            self.generation == u64::MAX ==> r == Err::<UsageState, SpoolError>(
                SpoolError::QueueStateOverflow,
            ),
    {
        if self.generation == u64::MAX {
            return Err(SpoolError::QueueStateOverflow);
        }
        let generation = self.generation + 1;
        Ok(UsageState { generation, ..self })
    }
}

/// The slot a generation is written to: the two slots alternate.
pub fn usage_slot_name(generation: u64) -> (r: &'static str)
    ensures
        generation % 2 == 0 ==> r@ == ".usage-0.json"@,
        generation % 2 == 1 ==> r@ == ".usage-1.json"@,
{
    if generation % 2 == 0 {
        ".usage-0.json"
    } else {
        ".usage-1.json"
    }
}

/// An encoded record must fit `MAX_USAGE_STATE_BYTES`.
pub fn check_usage_size(encoded_len: usize) -> (r: Result<(), SpoolError>)
    ensures
        encoded_len <= MAX_USAGE_STATE_BYTES ==> r is Ok,
        encoded_len > MAX_USAGE_STATE_BYTES ==> r == Err::<(), SpoolError>(SpoolError::QueueStateOverflow),
{
    if encoded_len as u64 > MAX_USAGE_STATE_BYTES {
        Err(SpoolError::QueueStateOverflow)
    } else {
        Ok(())
    }
}

/// The checksum of a record: lowercase hex SHA-256 of the record's JSON with
/// an empty checksum.
pub open spec fn usage_checksum_spec(unsigned_json: Seq<char>) -> Seq<char> {
    crate::trust::hex_lower_spec(crate::trust::sha256_of_utf8(unsigned_json))
}

pub fn usage_checksum(unsigned_json: &str) -> (r: String)
    ensures
        r@ == usage_checksum_spec(unsigned_json@),
{
    let digest = crate::trust::sha256_text(unsigned_json);
    string_from_chars(crate::trust::hex_lower(digest.as_slice()).as_slice())
}

/// A record read from a slot is trusted when it has the current schema and
/// a checksum that matches its unsigned JSON.
pub fn has_valid_checksum(state: &UsageState, unsigned_json: &str) -> (r: bool)
    ensures
        r == (state.schema_version == USAGE_SCHEMA_VERSION && state.checksum@.len() > 0
            && state.checksum@ == usage_checksum_spec(unsigned_json@)),
{
    if state.schema_version != USAGE_SCHEMA_VERSION {
        return false;
    }
    let c = chars_of(state.checksum.as_str());
    if c.len() == 0 {
        return false;
    }
    let expected = usage_checksum(unsigned_json);
    crate::text::chars_eq(c.as_slice(), chars_of(expected.as_str()).as_slice())
}

/// The record to use among the slots read: the highest generation, the
/// later slot on a tie.
pub open spec fn latest_index(gens: Seq<u64>) -> int
    decreases gens.len(),
{
    if gens.len() <= 1 {
        0
    } else {
        let k = latest_index(gens.drop_last());
        if gens.last() >= gens[k] {
            gens.len() - 1
        } else {
            k
        }
    }
}

pub open spec fn generations(v: Seq<UsageState>) -> Seq<u64> {
    v.map_values(|s: UsageState| s.generation)
}

pub fn latest_usage_state(slots: Vec<UsageState>) -> (r: Option<UsageState>)
    ensures
        slots@.len() == 0 ==> r is None,
        slots@.len() > 0 ==> r == Some(slots@[latest_index(generations(slots@))]),
{
    if slots.len() == 0 {
        return None;
    }
    let ghost g = generations(slots@);
    let mut best: usize = 0;
    let mut i: usize = 1;
    assert(g.take(1).len() == 1);
    while i < slots.len()
        invariant
            1 <= i <= slots@.len(),
            g == generations(slots@),
            best < i,
            best as int == latest_index(g.take(i as int)),
        decreases slots.len() - i,
    {
        assert(g.take(i + 1).drop_last() =~= g.take(i as int));
        assert(g.take(i + 1).last() == slots@[i as int].generation);
        assert(g.take(i + 1)[best as int] == slots@[best as int].generation);
        if slots[i].generation >= slots[best].generation {
            best = i;
        }
        i = i + 1;
    }
    assert(g.take(slots@.len() as int) =~= g);
    let mut slots = slots;
    Some(slots.swap_remove(best))
}

/// What a directory entry is, as the rebuild reads it: its name and, for a
/// regular file, its size.
pub open spec fn rebuilt_items(entries: Seq<(String, Option<u64>)>) -> int
    decreases entries.len(),
{
    if entries.len() == 0 {
        0
    } else {
        rebuilt_items(entries.drop_last()) + if is_pending_name_spec(entries.last().0@) {
            1int
        } else {
            0int
        }
    }
}

pub open spec fn rebuilt_bytes(entries: Seq<(String, Option<u64>)>) -> int
    decreases entries.len(),
{
    if entries.len() == 0 {
        0
    } else {
        saturating_add_u64(
            rebuilt_bytes(entries.drop_last()),
            if is_pending_name_spec(entries.last().0@) {
                match entries.last().1 {
                    Some(n) => n as int,
                    None => 0,
                }
            } else {
                0
            },
        )
    }
}

/// The record a directory scan gives: the pending files and the bytes of
/// the regular ones (saturating).
pub fn rebuild_usage(entries: &Vec<(String, Option<u64>)>) -> (r: UsageState)
    ensures
        r.items == rebuilt_items(entries@),
        r.bytes == rebuilt_bytes(entries@),
        r.schema_version == USAGE_SCHEMA_VERSION && r.generation == 0 && r.operation is None
            && r.checksum@.len() == 0,
{
    let mut items: u64 = 0;
    let mut bytes: u64 = 0;
    let mut i: usize = 0;
    while i < entries.len()
        invariant
            i <= entries@.len(),
            items == rebuilt_items(entries@.take(i as int)),
            items <= i,
            bytes == rebuilt_bytes(entries@.take(i as int)),
            bytes <= u64::MAX,
        decreases entries.len() - i,
    {
        assert(entries@.take(i + 1).drop_last() =~= entries@.take(i as int));
        assert(entries@.take(i + 1).last() == entries@[i as int]);
        if is_pending_name(entries[i].0.as_str()) {
            items = items + 1;
            match entries[i].1 {
                Some(n) => {
                    bytes = if bytes > u64::MAX - n {
                        u64::MAX
                    } else {
                        bytes + n
                    };
                },
                None => {},
            }
        }
        i = i + 1;
    }
    assert(entries@.take(entries@.len() as int) =~= entries@);
    UsageState::rebuilt(items, bytes)
}

// ---------------------------------------------------------------------------
// Admitting and removing items
// ---------------------------------------------------------------------------
/// A lowercase hexadecimal digit.
pub open spec fn lower_hex_char(c: char) -> bool {
    ('0' <= c && c <= '9') || ('a' <= c && c <= 'f')
}

/// The text of a UUID as `uuid` displays it: 36 characters, hyphens at 8,
/// 13, 18 and 23, lowercase hexadecimal digits elsewhere.
pub open spec fn spool_key_spec(k: Seq<char>) -> bool {
    k.len() == 36 && forall|i: int|
        0 <= i < 36 ==> if i == 8 || i == 13 || i == 18 || i == 23 {
            #[trigger] k[i] == '-'
        } else {
            lower_hex_char(k[i])
        }
}

/// A fresh random key for a pending item: `uuid::Uuid::new_v4` in its
/// hyphenated lowercase text form. Only the form is stated; the value is
/// random.
#[verifier::external_body]
pub(crate) fn new_spool_key() -> (r: String)
    ensures
        spool_key_spec(r@),
{
    uuid::Uuid::new_v4().to_string()
}

/// The file names of an item: its key, `.result` for a result capture, then
/// the suffix.
pub open spec fn item_file_name(key: Seq<char>, result_capture: bool, suffix: Seq<char>) -> Seq<char> {
    key + (if result_capture {
        ".result"@
    } else {
        Seq::empty()
    }) + suffix
}

/// Where an admitted item is written: first to its temporary file, then
/// renamed to its pending file; and the usage record announcing it.
#[derive(Clone, Debug, PartialEq, Eq)]
pub struct EnqueuePlan {
    pub pending_name: String,
    pub temporary_name: String,
    pub usage: UsageState,
}

/// An item is admitted when the record has room (see `reserve_spec`).
pub open spec fn has_room(usage: UsageState, incoming: int) -> bool {
    items_as_usize(usage.items) < 1024 && saturating_add_u64(usage.bytes as int, incoming)
        <= MAX_PENDING_BYTES
}

/// What admitting a payload of `len` bytes gives: too large above
/// `MAX_PENDING_ITEM_BYTES`; full without room; otherwise a plan under a
/// fresh key with the reserved record.
pub open spec fn enqueue_matches(usage: UsageState, len: int, result_capture: bool, r: Result<EnqueuePlan, SpoolError>) -> bool {
    if len > MAX_PENDING_ITEM_BYTES {
        r == Err::<EnqueuePlan, SpoolError>(SpoolError::Oversized(len as u64))
    } else if !has_room(usage, len) {
        r == Err::<EnqueuePlan, SpoolError>(
            SpoolError::QueueFull { items: items_as_usize(usage.items), bytes: usage.bytes },
        )
    } else {
        r matches Ok(p) && exists|key: Seq<char>|
            spool_key_spec(key) && p.pending_name@ == item_file_name(key, result_capture, ".pending"@)
                && p.temporary_name@ == item_file_name(key, result_capture, ".tmp"@) && reserve_spec(
                usage,
                p.pending_name,
                p.temporary_name,
                len as u64,
            ) == Ok::<UsageState, SpoolError>(p.usage)
    }
}

proof fn lemma_item_name_valid(key: Seq<char>, result_capture: bool, suffix: Seq<char>)
    requires
        spool_key_spec(key),
        suffix == ".pending"@ || suffix == ".tmp"@,
    ensures
        valid_local_name_spec(item_file_name(key, result_capture, suffix), suffix),
{
    reveal_strlit(".pending");
    reveal_strlit(".tmp");
    reveal_strlit(".result");
    let name = item_file_name(key, result_capture, suffix);
    assert forall|i: int| 0 <= i < name.len() implies local_name_char(#[trigger] name[i]) by {
        if i < 36 {
            assert(name[i] == key[i]);
            if i == 8 || i == 13 || i == 18 || i == 23 {
                assert(key[i] == '-');
            } else {
                assert(lower_hex_char(key[i]));
            }
        }
    }
    assert(vstd::utf8::is_ascii_chars(name)) by {
        assert forall|i: int| 0 <= i < name.len() implies '\0' <= #[trigger] name[i] <= '\u{7f}' by {
            assert(local_name_char(name[i]));
        }
    }
    vstd::utf8::is_ascii_chars_encode_utf8(name);
    assert(name.skip(name.len() - suffix.len()) =~= suffix);
}

impl Spool {
    /// Admits a result-marked or plain payload (see `enqueue_matches`).
    pub fn enqueue_marked(&self, payload: &[u8], result_capture: bool, usage: UsageState) -> (r:
        Result<EnqueuePlan, SpoolError>)
        ensures
            enqueue_matches(usage, payload@.len() as int, result_capture, r),
    {
        if payload.len() > MAX_PENDING_ITEM_BYTES {
            return Err(SpoolError::Oversized(payload.len() as u64));
        }
        let key = new_spool_key();
        let mut pending: Vec<char> = Vec::new();
        push_str(&mut pending, key.as_str());
        let mut temporary: Vec<char> = Vec::new();
        push_str(&mut temporary, key.as_str());
        if result_capture {
            push_str(&mut pending, ".result");
            push_str(&mut temporary, ".result");
        }
        push_str(&mut pending, ".pending");
        push_str(&mut temporary, ".tmp");
        let pending_name = string_from_chars(pending.as_slice());
        let temporary_name = string_from_chars(temporary.as_slice());
        proof {
            reveal_strlit("");
            assert(pending_name@ =~= item_file_name(key@, result_capture, ".pending"@));
            assert(temporary_name@ =~= item_file_name(key@, result_capture, ".tmp"@));
            lemma_item_name_valid(key@, result_capture, ".pending"@);
            lemma_item_name_valid(key@, result_capture, ".tmp"@);
        }
        let reserved = reserve_enqueue(
            usage,
            pending_name.clone(),
            temporary_name.clone(),
            payload.len() as u64,
        );
        match reserved {
            Ok(state) => Ok(EnqueuePlan { pending_name, temporary_name, usage: state }),
            Err(e) => Err(e),
        }
    }

    /// Admits a plain payload.
    pub fn enqueue(&self, payload: &[u8], usage: UsageState) -> (r: Result<EnqueuePlan, SpoolError>)
        ensures
            enqueue_matches(usage, payload@.len() as int, false, r),
    {
        self.enqueue_marked(payload, false, usage)
    }
}

/// What a removal finds at a pending file.
#[derive(Clone, Debug, PartialEq, Eq)]
pub enum EntryState {
    /// A regular file of this many bytes.
    Regular(u64),
    /// Something other than a regular file.
    NonRegular,
    /// Nothing.
    Missing,
    /// The inspection failed, with this message.
    Failed(String),
}

/// Whether `name` occurs among the first `k` requests.
pub open spec fn named_before(requests: Seq<(String, EntryState)>, k: int, name: Seq<char>) -> bool {
    exists|j: int| 0 <= j < k && (#[trigger] requests[j]).0@ == name
}

/// The entries a removal accounts for, in request order: each pending file
/// once, regular files only, missing ones skipped; an invalid name, a
/// non-regular file or a failed inspection stops the removal.
pub open spec fn removal_spec(requests: Seq<(String, EntryState)>) -> Result<Seq<(Seq<char>, u64)>, SpoolError>
    decreases requests.len(),
{
    if requests.len() == 0 {
        Ok(Seq::empty())
    } else {
        match removal_spec(requests.drop_last()) {
            Err(e) => Err(e),
            Ok(entries) => {
                let (name, state) = requests.last();
                if !valid_local_name_spec(name@, ".pending"@) {
                    Err(SpoolError::InvalidQueueState)
                } else if named_before(requests, requests.len() - 1, name@) {
                    Ok(entries)
                } else {
                    match state {
                        EntryState::Regular(n) => Ok(entries.push((name@, n))),
                        EntryState::NonRegular => Err(SpoolError::NonRegular),
                        EntryState::Missing => Ok(entries),
                        EntryState::Failed(m) => Err(SpoolError::Io(m)),
                    }
                }
            },
        }
    }
}

pub open spec fn entry_views(v: Seq<UsageEntry>) -> Seq<(Seq<char>, u64)> {
    v.map_values(|e: UsageEntry| (e.pending_name@, e.bytes))
}

/// The entries a removal accounts for (see `removal_spec`).
pub fn removal_entries(requests: &Vec<(String, EntryState)>) -> (r: Result<Vec<UsageEntry>, SpoolError>)
    ensures
        match removal_spec(requests@) {
            Ok(v) => r matches Ok(out) && entry_views(out@) == v,
            Err(e) => r == Err::<Vec<UsageEntry>, SpoolError>(e),
        },
{
    let mut out: Vec<UsageEntry> = Vec::new();
    let mut seen: Vec<String> = Vec::new();
    let mut i: usize = 0;
    assert(requests@.take(0) =~= Seq::<(String, EntryState)>::empty());
    assert(entry_views(out@) =~= Seq::<(Seq<char>, u64)>::empty());
    while i < requests.len()
        invariant
            i <= requests@.len(),
            removal_spec(requests@.take(i as int)) == Ok::<Seq<(Seq<char>, u64)>, SpoolError>(entry_views(out@)),
            seen@.len() == i,
            forall|j: int| 0 <= j < i ==> #[trigger] seen@[j]@ == requests@[j].0@,
        decreases requests.len() - i,
    {
        let ghost t = requests@.take(i + 1);
        assert(t.drop_last() =~= requests@.take(i as int));
        assert(t.last() == requests@[i as int]);
        let name = requests[i].0.as_str();
        if validate_local_name(name, ".pending").is_err() {
            proof {
                lemma_removal_err_extends(requests@, i as int + 1);
            }
            return Err(SpoolError::InvalidQueueState);
        }
        let dup = contains_name(&seen, name);
        assert(dup == named_before(t, t.len() - 1, name@)) by {
            if dup {
                let j = choose|j: int| 0 <= j < seen@.len() && string_views(seen@)[j] == name@;
                assert(t[j] == requests@[j]);
            }
            if named_before(t, t.len() - 1, name@) {
                let j = choose|j: int| 0 <= j < t.len() - 1 && (#[trigger] t[j]).0@ == name@;
                assert(t[j] == requests@[j]);
                assert(string_views(seen@)[j] == name@);
            }
        }
        if !dup {
            match &requests[i].1 {
                EntryState::Regular(n) => {
                    let ghost before = entry_views(out@);
                    out.push(UsageEntry { pending_name: name.to_owned(), bytes: *n });
                    assert(entry_views(out@) =~= before.push((name@, *n)));
                },
                EntryState::NonRegular => {
                    proof {
                        lemma_removal_err_extends(requests@, i as int + 1);
                    }
                    return Err(SpoolError::NonRegular);
                },
                EntryState::Missing => {},
                EntryState::Failed(m) => {
                    proof {
                        lemma_removal_err_extends(requests@, i as int + 1);
                    }
                    return Err(SpoolError::Io(m.clone()));
                },
            }
        }
        seen.push(name.to_owned());
        i = i + 1;
    }
    assert(requests@.take(requests@.len() as int) =~= requests@);
    Ok(out)
}

proof fn lemma_removal_err_extends(requests: Seq<(String, EntryState)>, k: int)
    requires
        0 <= k <= requests.len(),
        removal_spec(requests.take(k)) is Err,
    ensures
        removal_spec(requests) == removal_spec(requests.take(k)),
    decreases requests.len() - k,
{
    if k < requests.len() {
        assert(requests.take(k + 1).drop_last() =~= requests.take(k));
        lemma_removal_err_extends(requests, k + 1);
    } else {
        assert(requests.take(k) =~= requests);
    }
}

// ---------------------------------------------------------------------------
// Expiring retained results
// ---------------------------------------------------------------------------
/// What a decoded pending item says: whether it is a turn result, and when
/// it was captured.
#[derive(Clone, Copy, Debug, PartialEq, Eq)]
pub struct DecodedCapture {
    pub is_result: bool,
    pub captured_at_us: i64,
}

/// A pending item a sweep considers: its file name, what it decodes to (if
/// it decodes), and its file's modification time (if known).
#[derive(Clone, Debug, PartialEq, Eq)]
pub struct ResultCandidate {
    pub name: String,
    pub decoded: Option<DecodedCapture>,
    pub modified_at_us: Option<i64>,
}

/// A result item expires when it was captured (or, undecodable, last
/// modified) no later than `retention_us` before `now_us`. Plain items never
/// expire.
pub open spec fn expires(now_us: i64, retention_us: i64, c: ResultCandidate) -> bool {
    let cutoff = saturating_i64(now_us - retention_us);
    let decoded_result = c.decoded matches Some(d) && d.is_result;
    let time = if decoded_result {
        Some(c.decoded->Some_0.captured_at_us)
    } else {
        c.modified_at_us
    };
    (is_result_pending_name_spec(c.name@) || decoded_result) && (time matches Some(t) && t <= cutoff)
}

pub open spec fn expired_names_spec(now_us: i64, retention_us: i64, candidates: Seq<ResultCandidate>) -> Seq<Seq<char>> {
    candidates.filter(|c: ResultCandidate| expires(now_us, retention_us, c)).map_values(
        |c: ResultCandidate| c.name@,
    )
}

/// The items a sweep removes, in order.
pub fn expired_result_names(now_us: i64, retention_us: i64, candidates: &Vec<ResultCandidate>) -> (r: Vec<String>)
    ensures
        string_views(r@) == expired_names_spec(now_us, retention_us, candidates@),
{
    let cutoff = saturating_sub_i64(now_us, retention_us);
    let ghost f = |c: ResultCandidate| expires(now_us, retention_us, c);
    let mut out: Vec<String> = Vec::new();
    let mut i: usize = 0;
    proof {
        reveal(Seq::filter);
    }
    assert(candidates@.take(0).filter(f) =~= Seq::<ResultCandidate>::empty());
    while i < candidates.len()
        invariant
            i <= candidates@.len(),
            cutoff == saturating_i64(now_us - retention_us),
            f == (|c: ResultCandidate| expires(now_us, retention_us, c)),
            string_views(out@) == candidates@.take(i as int).filter(f).map_values(
                |c: ResultCandidate| c.name@,
            ),
        decreases candidates.len() - i,
    {
        let c = &candidates[i];
        proof {
            assert(candidates@.take(i + 1) =~= candidates@.take(i as int).push(candidates@[i as int]));
            candidates@.take(i as int).lemma_filter_push(candidates@[i as int], f);
        }
        let marked = is_result_pending_name(c.name.as_str());
        let decoded_result = match c.decoded {
            Some(d) => d.is_result,
            None => false,
        };
        let time: Option<i64> = if decoded_result {
            match c.decoded {
                Some(d) => Some(d.captured_at_us),
                None => None,
            }
        } else {
            c.modified_at_us
        };
        let expired = (marked || decoded_result) && match time {
            Some(t) => t <= cutoff,
            None => false,
        };
        assert(expired == f(*c));
        let ghost before = string_views(out@);
        if expired {
            out.push(c.name.as_str().to_owned());
            assert(string_views(out@) =~= before.push(c.name@));
        }
        assert(string_views(out@) =~= candidates@.take(i + 1).filter(f).map_values(
            |c: ResultCandidate| c.name@,
        ));
        i = i + 1;
    }
    assert(candidates@.take(candidates@.len() as int) =~= candidates@);
    out
}

// ---------------------------------------------------------------------------
// Laws of the queue
// ---------------------------------------------------------------------------
/// An admission that was interrupted before its pending file appeared is
/// given back in full: completing it restores the record's items and bytes
/// and removes the temporary file.
pub proof fn law_abandoned_reservation_is_given_back(
    usage: UsageState,
    pending_name: String,
    temporary_name: String,
    incoming: u64,
)
    requires
        reserve_spec(usage, pending_name, temporary_name, incoming) is Ok,
    ensures
        ({
            let reserved = reserve_spec(usage, pending_name, temporary_name, incoming)->Ok_0;
            reconcile_spec(reserved, seq![false]) == Ok::<(UsageState, Option<Seq<char>>), SpoolError>(
                (UsageState { operation: None, ..usage }, Some(temporary_name@)),
            )
        }),
{
}

/// An admission whose pending file appeared keeps its place: completing it
/// leaves one more item and the item's bytes counted.
pub proof fn law_completed_reservation_keeps_capacity(
    usage: UsageState,
    pending_name: String,
    temporary_name: String,
    incoming: u64,
)
    requires
        reserve_spec(usage, pending_name, temporary_name, incoming) is Ok,
    ensures
        ({
            let reserved = reserve_spec(usage, pending_name, temporary_name, incoming)->Ok_0;
            &&& reconcile_spec(reserved, seq![true]) is Ok
            &&& reconcile_spec(reserved, seq![true])->Ok_0.0.items == usage.items + 1
            &&& reconcile_spec(reserved, seq![true])->Ok_0.0.bytes == usage.bytes + incoming
        }),
{
}

/// An admitted record never holds more than `MAX_PENDING_ITEMS` items or
/// `MAX_PENDING_BYTES` bytes.
pub proof fn law_admission_respects_capacity(
    usage: UsageState,
    pending_name: String,
    temporary_name: String,
    incoming: u64,
)
    requires
        reserve_spec(usage, pending_name, temporary_name, incoming) is Ok,
    ensures
        reserve_spec(usage, pending_name, temporary_name, incoming)->Ok_0.items <= 1024,
        reserve_spec(usage, pending_name, temporary_name, incoming)->Ok_0.bytes <= MAX_PENDING_BYTES,
{
}

proof fn lemma_selected_members(listing: Seq<Seq<char>>, excluded: Set<Seq<char>>)
    ensures
        forall|i: int|
            0 <= i < selected_names(listing, excluded).len() ==> !excluded.contains(
                #[trigger] selected_names(listing, excluded)[i],
            ) && is_pending_name_spec(selected_names(listing, excluded)[i]),
    decreases listing.len(),
{
    if listing.len() > 0 {
        let prev = selected_names(listing.drop_last(), excluded);
        lemma_selected_members(listing.drop_last(), excluded);
        let r = selected_names(listing, excluded);
        assert forall|i: int| 0 <= i < r.len() implies !excluded.contains(#[trigger] r[i])
            && is_pending_name_spec(r[i]) by {
            if i < prev.len() {
                assert(r[i] == prev[i]);
            }
        }
    }
}

/// A recovery pass reads only pending items that are not deferred, and
/// each at most once.
pub proof fn law_recovery_reads_only_undeferred_pending_items(
    listing: Seq<Seq<char>>,
    deferred: Set<Seq<char>>,
    offset: usize,
)
    ensures
        ({
            let batch = recovery_spec(pending_spec(listing, deferred), offset);
            &&& forall|i: int|
                0 <= i < batch.len() ==> !deferred.contains(#[trigger] batch[i])
                    && is_pending_name_spec(batch[i])
            &&& forall|i: int, j: int| 0 <= i < j < batch.len() ==> batch[i] != batch[j]
        }),
{
    let sel = selected_names(listing, deferred);
    let paths = pending_spec(listing, deferred);
    lemma_selected_members(listing, deferred);
    crate::text::lemma_sorted_seq_exists(sel);
    assert(crate::text::strictly_sorted(paths) && paths.to_set() == sel.to_set());
    let batch = recovery_spec(paths, offset);
    if paths.len() > 0 {
        let n = paths.len() as int;
        let start = (offset as int) % n;
        assert forall|i: int| 0 <= i < batch.len() implies !deferred.contains(#[trigger] batch[i])
            && is_pending_name_spec(batch[i]) by {
            let k = (start + i) % n;
            assert(0 <= k < n) by (nonlinear_arith)
                requires
                    n > 0,
                    k == (start + i) % n,
            ;
            assert(batch[i] == paths[k]);
            assert(paths.to_set().contains(paths[k]));
            assert(sel.to_set().contains(paths[k]));
            let m = choose|m: int| 0 <= m < sel.len() && sel[m] == paths[k];
        }
        assert forall|i: int, j: int| 0 <= i < j < batch.len() implies batch[i] != batch[j] by {
            let a = (start + i) % n;
            let b = (start + j) % n;
            assert(0 <= a < n && 0 <= b < n && a != b) by (nonlinear_arith)
                requires
                    n > 0,
                    0 <= start < n,
                    0 <= i < j < n,
                    a == (start + i) % n,
                    b == (start + j) % n,
            ;
            assert(batch[i] == paths[a] && batch[j] == paths[b]);
            if a < b {
                crate::text::lemma_lex_irreflexive(paths[a]);
            } else {
                crate::text::lemma_lex_irreflexive(paths[b]);
            }
        }
    }
}

} // verus!
