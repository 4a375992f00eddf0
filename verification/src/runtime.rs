//! One RuntimeWork binds one accepted Work to its private workspace, native session and launch facts.

use vstd::prelude::*;
use crate::evidence::opt_text;
use crate::provider::Provider;
use crate::request::{RequestView, WorkRequest, WorkContext, contexts};
use crate::text::valid_identity_text;
use crate::text::same_text;
use crate::text::{is_blank_spec, has_control_spec};
use crate::nonce::nonce_accepted;
use crate::json::{Json, JsonView, json_of, json_written, texts, field_texts, json_opt, parse_json, json_text};
use crate::envelope::delivery_of;

verus! {

/// StagedInput is one attachment already staged as exact readonly bytes for one Work.
pub struct StagedInput {
    pub id: String,
    pub name: String,
    pub media: String,
    pub bytes: u64,
    pub sha256: String,
    pub path: String,
}

pub struct StagedView {
    pub id: Seq<char>,
    pub name: Seq<char>,
    pub media: Seq<char>,
    pub bytes: u64,
    pub sha256: Seq<char>,
    pub path: Seq<char>,
}

impl View for StagedInput {
    type V = StagedView;

    open spec fn view(&self) -> StagedView {
        StagedView {
            id: self.id@,
            name: self.name@,
            media: self.media@,
            bytes: self.bytes,
            sha256: self.sha256@,
            path: self.path@,
        }
    }
}

pub open spec fn staged(v: Seq<StagedInput>) -> Seq<StagedView> {
    v.map_values(|s: StagedInput| s@)
}

impl StagedInput {
    pub fn copy(&self) -> (r: Self)
        ensures
            r@ == self@,
    {
        StagedInput {
            id: self.id.clone(),
            name: self.name.clone(),
            media: self.media.clone(),
            bytes: self.bytes,
            sha256: self.sha256.clone(),
            path: self.path.clone(),
        }
    }
}

/// RuntimeSteer preserves one exact follow-up and its verified private attachments.
pub struct RuntimeSteer {
    pub id: String,
    pub request: WorkRequest,
    pub attachments: Vec<StagedInput>,
}

pub struct SteerView {
    pub id: Seq<char>,
    pub request: RequestView,
    pub attachments: Seq<StagedView>,
}

impl View for RuntimeSteer {
    type V = SteerView;

    open spec fn view(&self) -> SteerView {
        SteerView { id: self.id@, request: self.request@, attachments: staged(self.attachments@) }
    }
}

pub open spec fn steers_view(v: Seq<RuntimeSteer>) -> Seq<SteerView> {
    v.map_values(|s: RuntimeSteer| s@)
}

pub open spec fn opt_steer(o: Option<RuntimeSteer>) -> Option<SteerView> {
    match o {
        Some(s) => Some(s@),
        None => None,
    }
}

fn copy_contexts(v: &Vec<WorkContext>) -> (r: Vec<WorkContext>)
    ensures
        contexts(r@) == contexts(v@),
{
    let mut r: Vec<WorkContext> = Vec::new();
    let mut i: usize = 0;
    while i < v.len()
        invariant
            i <= v.len(),
            r@.len() == i,
            forall|k: int| 0 <= k < i ==> (#[trigger] r@[k])@ == v@[k]@,
        decreases v.len() - i,
    {
        r.push(v[i].copy());
        i = i + 1;
    }
    assert(contexts(r@) =~= contexts(v@));
    r
}

fn copy_staged(v: &Vec<StagedInput>) -> (r: Vec<StagedInput>)
    ensures
        staged(r@) == staged(v@),
{
    let mut r: Vec<StagedInput> = Vec::new();
    let mut i: usize = 0;
    while i < v.len()
        invariant
            i <= v.len(),
            r@.len() == i,
            forall|k: int| 0 <= k < i ==> (#[trigger] r@[k])@ == v@[k]@,
        decreases v.len() - i,
    {
        r.push(v[i].copy());
        i = i + 1;
    }
    assert(staged(r@) =~= staged(v@));
    r
}

impl WorkRequest {
    pub fn copy(&self) -> (r: Self)
        ensures
            r@ == self@,
    {
        WorkRequest {
            conversation: self.conversation.clone(),
            goal: self.goal.clone(),
            context: copy_contexts(&self.context),
        }
    }
}

impl RuntimeSteer {
    /// Prepare accepts one protocol steer identity without changing its request or attachments.
    pub fn prepare(id: String, request: WorkRequest, inputs: Vec<StagedInput>) -> (r: Result<
        Self,
        String,
    >)
        ensures
            crate::nonce::nonce_accepted(id@) ==> (r matches Ok(s) && s.id == id && s.request
                == request && s.attachments == inputs),
            !crate::nonce::nonce_accepted(id@) ==> (r matches Err(e) && e@
                == "Steer identity is invalid"@),
    {
        if !crate::nonce::valid_nonce(id.as_str()) {
            return Err("Steer identity is invalid".to_owned());
        }
        Ok(RuntimeSteer { id, request, attachments: inputs })
    }

    /// A copy with the same words, context and attachments.
    pub fn copy(&self) -> (r: Self)
        ensures
            r@ == self@,
    {
        RuntimeSteer {
            id: self.id.clone(),
            request: self.request.copy(),
            attachments: copy_staged(&self.attachments),
        }
    }
}

pub fn copy_steer(o: &Option<RuntimeSteer>) -> (r: Option<RuntimeSteer>)
    ensures
        opt_steer(r) == opt_steer(*o),
{
    match o {
        Some(s) => Some(s.copy()),
        None => None,
    }
}

/// RuntimeWork binds every machine path and native session hint to exactly one external Work ID.
pub struct RuntimeWork {
    pub work_id: String,
    pub provider: Provider,
    pub model_selection: Option<String>,
    pub effort_selection: Option<String>,
    pub session: String,
    pub freeze_root: String,
    pub native_session: String,
    pub resume: bool,
    pub runner_id: String,
    pub started_at: u64,
    pub input_path: String,
    pub steer: Option<RuntimeSteer>,
    /// SteerDelivered proves a runner already received this follow-up's exact words.
    pub steer_delivered: bool,
    /// Rotating proves the active turn is ending before this follow-up resumes its native session.
    pub rotating: bool,
    /// Repair selects Provider-native continuation without changing immutable Work input.
    pub repair: bool,
    /// Failure names the exact correction or stalled turn the same native session must recover.
    pub failure: Option<String>,
    /// Launched makes restart recovery reattach before any host command can reopen.
    pub launched: bool,
}

/// RuntimeRecovery carries only durable facts required to resume one admitted native Work.
pub struct RuntimeRecovery {
    pub work_id: String,
    pub conversation: String,
    pub provider: Provider,
    pub model_selection: Option<String>,
    pub effort_selection: Option<String>,
    pub session: String,
    pub freeze_root: String,
    pub native_session: String,
    pub resume: bool,
    pub runner_id: String,
    pub started_at: u64,
    pub input_path: String,
    pub steer: Option<RuntimeSteer>,
    pub steer_delivered: bool,
    pub rotating: bool,
    pub repair: bool,
    pub failure: Option<String>,
    pub launched: bool,
}

impl RuntimeWork {
    /// Recover rebuilds only an admitted launch command; its stable runner ID makes retry execution-safe.
    pub fn recover(recovery: RuntimeRecovery) -> (r: Self)
        ensures
            r == (RuntimeWork {
                work_id: recovery.work_id,
                provider: recovery.provider,
                model_selection: recovery.model_selection,
                effort_selection: recovery.effort_selection,
                session: recovery.session,
                freeze_root: recovery.freeze_root,
                native_session: recovery.native_session,
                resume: recovery.resume,
                runner_id: recovery.runner_id,
                started_at: recovery.started_at,
                input_path: recovery.input_path,
                steer: recovery.steer,
                steer_delivered: recovery.steer_delivered,
                rotating: recovery.rotating,
                repair: recovery.repair,
                failure: recovery.failure,
                launched: recovery.launched,
            }),
    {
        RuntimeWork {
            work_id: recovery.work_id,
            provider: recovery.provider,
            model_selection: recovery.model_selection,
            effort_selection: recovery.effort_selection,
            session: recovery.session,
            freeze_root: recovery.freeze_root,
            native_session: recovery.native_session,
            resume: recovery.resume,
            runner_id: recovery.runner_id,
            started_at: recovery.started_at,
            input_path: recovery.input_path,
            steer: recovery.steer,
            steer_delivered: recovery.steer_delivered,
            rotating: recovery.rotating,
            repair: recovery.repair,
            failure: recovery.failure,
            launched: recovery.launched,
        }
    }
}

/// The native session a fresh Work starts with: the conversation's bound session when there is
/// one; otherwise a hint cut from its runner identity for the Provider that accepts an explicit
/// session, and none for the Providers that name their own.
pub open spec fn first_session(provider: Provider, bound: Option<Seq<char>>, identity: Seq<char>) -> Seq<char> {
    match bound {
        Some(b) => b,
        None => if provider == Provider::Claude {
            session_hint(identity)
        } else {
            Seq::empty()
        },
    }
}

pub fn initial_native_session(provider: Provider, bound: Option<String>, identity: &str) -> (r: String)
    requires
        bound is None && provider == Provider::Claude ==> hint_cuttable(identity@),
    ensures
        r@ == first_session(
            provider,
            match bound {
                Some(b) => Some(b@),
                None => None,
            },
            identity@,
        ),
{
    match bound {
        Some(b) => b,
        None => match provider {
            Provider::Claude => native_session(identity),
            _ => String::new(),
        },
    }
}

/// What admitting one request settles before any private directory is made: the Work identity
/// is valid, the conversation it belongs to, and the one Designer instruction lifted out of it.
pub fn admit_request(work_id: &str, request: &mut WorkRequest) -> (r: Result<(String, Option<String>), String>)
    ensures
        !valid_identity_text(work_id@) ==> (r matches Err(e) && e@ == "Work identity is invalid"@)
            && final(request)@ == old(request)@,
        valid_identity_text(work_id@) && !valid_identity_text(
            crate::request::conversation_choice(old(request)@.conversation, work_id@),
        ) ==> (r matches Err(e) && e@ == "Conversation identity is invalid"@) && final(request)@
            == old(request)@,
        valid_identity_text(work_id@) && valid_identity_text(
            crate::request::conversation_choice(old(request)@.conversation, work_id@),
        ) && crate::request::guidance_count(old(request)@.context) > 1 ==> (r matches Err(e)
            && e@ == "Work contains multiple Designer guidance entries"@) && final(request)@ == old(
            request,
        )@,
        valid_identity_text(work_id@) && valid_identity_text(
            crate::request::conversation_choice(old(request)@.conversation, work_id@),
        ) && crate::request::guidance_count(old(request)@.context) <= 1 ==> (r matches Ok((c, g))
            && c@ == crate::request::conversation_choice(old(request)@.conversation, work_id@)
            && (match g {
            Some(t) => crate::request::first_guidance(old(request)@.context) == Some(t@),
            None => crate::request::first_guidance(old(request)@.context) is None,
        })) && final(request)@ == (crate::request::RequestView {
            context: crate::request::without_guidance(old(request)@.context),
            ..old(request)@
        }),
{
    crate::evidence::valid_work_id(work_id)?;
    let conversation = request.conversation_id(work_id)?;
    let instructions = request.take_designer_guidance()?;
    Ok((conversation, instructions))
}

/// Whether a runner identity can be cut into a session hint: its UTF-8 bytes reach 32, and the
/// byte offsets 8, 12, 16, 20 and 32 all fall on character boundaries.
pub open spec fn hint_cuttable(identity: Seq<char>) -> bool {
    let b = vstd::utf8::encode_utf8(identity);
    &&& b.len() >= 32
    &&& vstd::utf8::is_char_boundary(b, 8)
    &&& vstd::utf8::is_char_boundary(b, 12)
    &&& vstd::utf8::is_char_boundary(b, 16)
    &&& vstd::utf8::is_char_boundary(b, 20)
    &&& vstd::utf8::is_char_boundary(b, 32)
}

/// The text of the identity's UTF-8 bytes from `start` to `end`.
pub open spec fn byte_piece(identity: Seq<char>, start: int, end: int) -> Seq<char> {
    vstd::utf8::decode_utf8(vstd::utf8::encode_utf8(identity).subrange(start, end))
}

/// The UUID-shaped session hint Provider CLIs require, cut from one runner nonce at the byte
/// offsets 8, 12, 16, 20 and 32.
pub open spec fn session_hint(identity: Seq<char>) -> Seq<char> {
    byte_piece(identity, 0, 8) + "-"@ + byte_piece(identity, 8, 12) + "-"@ + byte_piece(identity, 12, 16)
        + "-"@ + byte_piece(identity, 16, 20) + "-"@ + byte_piece(identity, 20, 32)
}

proof fn lemma_boundary_shift(bytes: Seq<u8>, k: int, i: int)
    requires
        vstd::utf8::valid_utf8(bytes),
        0 <= k,
        0 <= i,
        k + i <= bytes.len(),
        vstd::utf8::is_char_boundary(bytes, k),
        vstd::utf8::is_char_boundary(bytes, k + i),
    ensures
        vstd::utf8::valid_utf8(bytes.subrange(k, bytes.len() as int)),
        vstd::utf8::is_char_boundary(bytes.subrange(k, bytes.len() as int), i),
{
    let rest = bytes.subrange(k, bytes.len() as int);
    vstd::utf8::valid_utf8_split(bytes, k);
    if k + i < bytes.len() {
        vstd::utf8::is_char_boundary_iff_not_is_continuation_byte(bytes, k + i);
        vstd::utf8::is_char_boundary_iff_not_is_continuation_byte(rest, i);
        assert(rest[i] == bytes[k + i]);
    } else {
        vstd::utf8::is_char_boundary_start_end_of_seq(rest);
    }
}

/// Native session hints use the UUID shape required by Provider CLIs without creating another
/// identity; the identity is cut by bytes, as string slicing cuts it.
pub fn native_session(identity: &str) -> (r: String)
    requires
        hint_cuttable(identity@),
    ensures
        r@ == session_hint(identity@),
{
    let ghost bytes = vstd::utf8::encode_utf8(identity@);
    proof {
        vstd::utf8::encode_utf8_valid_utf8(identity@);
    }
    let (a, rest) = identity.split_at(8);
    proof {
        lemma_boundary_shift(bytes, 8, 4);
        assert(vstd::utf8::encode_utf8(rest@) =~= bytes.subrange(8, bytes.len() as int));
    }
    let (b, rest) = rest.split_at(4);
    proof {
        lemma_boundary_shift(bytes, 12, 4);
        assert(vstd::utf8::encode_utf8(rest@) =~= bytes.subrange(12, bytes.len() as int));
    }
    let (c, rest) = rest.split_at(4);
    proof {
        lemma_boundary_shift(bytes, 16, 4);
        assert(vstd::utf8::encode_utf8(rest@) =~= bytes.subrange(16, bytes.len() as int));
    }
    let (d, rest) = rest.split_at(4);
    proof {
        lemma_boundary_shift(bytes, 20, 12);
        assert(vstd::utf8::encode_utf8(rest@) =~= bytes.subrange(20, bytes.len() as int));
    }
    let (e, _) = rest.split_at(12);
    proof {
        assert(vstd::utf8::encode_utf8(a@) =~= bytes.subrange(0, 8));
        assert(vstd::utf8::encode_utf8(b@) =~= bytes.subrange(8, 12));
        assert(vstd::utf8::encode_utf8(c@) =~= bytes.subrange(12, 16));
        assert(vstd::utf8::encode_utf8(d@) =~= bytes.subrange(16, 20));
        assert(vstd::utf8::encode_utf8(e@) =~= bytes.subrange(20, 32));
        vstd::utf8::encode_utf8_decode_utf8(a@);
        vstd::utf8::encode_utf8_decode_utf8(b@);
        vstd::utf8::encode_utf8_decode_utf8(c@);
        vstd::utf8::encode_utf8_decode_utf8(d@);
        vstd::utf8::encode_utf8_decode_utf8(e@);
    }
    let mut out: Vec<char> = Vec::new();
    crate::text::push_text(&mut out, a);
    crate::text::push_text(&mut out, "-");
    crate::text::push_text(&mut out, b);
    crate::text::push_text(&mut out, "-");
    crate::text::push_text(&mut out, c);
    crate::text::push_text(&mut out, "-");
    crate::text::push_text(&mut out, d);
    crate::text::push_text(&mut out, "-");
    crate::text::push_text(&mut out, e);
    crate::text::string_of(out.as_slice())
}

pub open spec fn invalid_input_text() -> Seq<char> {
    "Stored Work input is invalid"@
}

pub open spec fn steer_unbound_text() -> Seq<char> {
    "Steering requires a bound native session"@
}

pub open spec fn repair_unbound_text() -> Seq<char> {
    "Repair requires a bound native session"@
}

/// Whether an authority entry names the native instructions.
pub open spec fn is_instructions_item(item: Seq<char>) -> bool {
    json_of(item) == Some(JsonView::Text("instructions"@))
}

/// The authority entries that stay once the native instructions moved to their own channel.
pub open spec fn kept_authority(items: Seq<Seq<char>>) -> Seq<Seq<char>>
    decreases items.len(),
{
    if items.len() == 0 {
        items
    } else {
        let rest = kept_authority(items.drop_last());
        if is_instructions_item(items.last()) {
            rest
        } else {
            rest.push(items.last())
        }
    }
}

/// What one kept field becomes: an authority array loses its instructions entries and is written
/// again; `None` where that writing fails.
pub open spec fn edited_field(f: (Seq<char>, Seq<char>)) -> Option<(Seq<char>, Seq<char>)> {
    if f.0 == "authority"@ {
        match json_of(f.1) {
            Some(JsonView::Array(items)) => match json_written(
                JsonView::Array(kept_authority(items)),
            ) {
                Some(t) => Some((f.0, t)),
                None => None,
            },
            _ => Some(f),
        }
    } else {
        Some(f)
    }
}

/// The fields of an envelope without its native instructions, in their order.
pub open spec fn edited_fields(fields: Seq<(Seq<char>, Seq<char>)>) -> Option<Seq<(Seq<char>, Seq<char>)>>
    decreases fields.len(),
{
    if fields.len() == 0 {
        Some(fields)
    } else {
        match edited_fields(fields.drop_last()) {
            None => None,
            Some(rest) => if fields.last().0 == "instructions"@ {
                Some(rest)
            } else {
                match edited_field(fields.last()) {
                    Some(f) => Some(rest.push(f)),
                    None => None,
                }
            },
        }
    }
}

/// A value without native instructions: an object loses its instructions field and the
/// instructions entries of its authority; anything else stays as it is.
pub open spec fn instructions_removed(j: JsonView) -> Option<JsonView> {
    match j {
        JsonView::Object(fields) => match edited_fields(fields) {
            Some(f) => Some(JsonView::Object(f)),
            None => None,
        },
        _ => Some(j),
    }
}

/// The envelope a non-Cursor Provider receives for a stored request: `None` where the stored
/// input is not a JSON object or cannot be written again.
pub open spec fn native_envelope(envelope: Seq<char>) -> Option<Seq<char>> {
    match json_of(envelope) {
        Some(JsonView::Object(fields)) => match edited_fields(fields) {
            Some(f) => json_written(JsonView::Object(f)),
            None => None,
        },
        _ => None,
    }
}

proof fn lemma_edit_failure_persists(s: Seq<(Seq<char>, Seq<char>)>, k: int)
    requires
        0 <= k <= s.len(),
        edited_fields(s.take(k)) is None,
    ensures
        edited_fields(s) is None,
    decreases s.len(),
{
    if s.len() > k {
        assert(s.drop_last().take(k) =~= s.take(k));
        lemma_edit_failure_persists(s.drop_last(), k);
    } else {
        assert(s.take(k) =~= s);
    }
}

fn is_instructions(item: &str) -> (r: bool)
    ensures
        r == is_instructions_item(item@),
{
    match parse_json(item) {
        Some(Json::Text(t)) => same_text(t.as_str(), "instructions"),
        _ => false,
    }
}

fn authority_kept(items: &Vec<String>) -> (r: Vec<String>)
    ensures
        texts(r@) == kept_authority(texts(items@)),
{
    let mut out: Vec<String> = Vec::new();
    let mut i: usize = 0;
    while i < items.len()
        invariant
            i <= items@.len(),
            texts(out@) == kept_authority(texts(items@).take(i as int)),
        decreases items@.len() - i,
    {
        let ghost before = out@;
        proof {
            assert(texts(items@).take(i + 1).drop_last() =~= texts(items@).take(i as int));
        }
        if !is_instructions(items[i].as_str()) {
            out.push(items[i].as_str().to_owned());
            proof {
                assert(texts(out@) =~= texts(before).push(items@[i as int]@));
            }
        }
        i = i + 1;
    }
    proof {
        assert(texts(items@).take(items@.len() as int) =~= texts(items@));
    }
    out
}

pub open spec fn field_opt(f: Option<(String, String)>) -> Option<(Seq<char>, Seq<char>)> {
    match f {
        Some(x) => Some((x.0@, x.1@)),
        None => None,
    }
}

fn edit_field(key: String, value: String) -> (r: Option<(String, String)>)
    ensures
        field_opt(r) == edited_field((key@, value@)),
{
    if same_text(key.as_str(), "authority") {
        match parse_json(value.as_str()) {
            Some(Json::Array(items)) => {
                let kept = authority_kept(&items);
                match json_text(&Json::Array(kept)) {
                    Some(t) => Some((key, t)),
                    None => None,
                }
            },
            _ => Some((key, value)),
        }
    } else {
        Some((key, value))
    }
}

/// WithoutInstructions removes the native instructions from an envelope's value: an object
/// loses its `instructions` field and the `"instructions"` entries of an `authority` array.
/// `None` only where serde_json cannot write the edited authority again.
pub fn without_instructions(j: Json) -> (r: Option<Json>)
    ensures
        json_opt(r) == instructions_removed(j@),
{
    match j {
        Json::Object(fields) => {
            let mut out: Vec<(String, String)> = Vec::new();
            let mut i: usize = 0;
            while i < fields.len()
                invariant
                    i <= fields@.len(),
                    j@ == JsonView::Object(field_texts(fields@)),
                    edited_fields(field_texts(fields@).take(i as int)) == Some(field_texts(out@)),
                decreases fields@.len() - i,
            {
                let ghost before = out@;
                proof {
                    assert(field_texts(fields@).take(i + 1).drop_last() =~= field_texts(fields@).take(
                        i as int,
                    ));
                }
                let key = fields[i].0.as_str().to_owned();
                let value = fields[i].1.as_str().to_owned();
                if !same_text(key.as_str(), "instructions") {
                    match edit_field(key, value) {
                        Some(f) => {
                            out.push(f);
                            proof {
                                assert(field_texts(out@) =~= field_texts(before).push(
                                    (out@[before.len() as int].0@, out@[before.len() as int].1@),
                                ));
                            }
                        },
                        None => {
                            proof {
                                let ts = field_texts(fields@).take(i + 1);
                                assert(ts.last() == (fields@[i as int].0@, fields@[i as int].1@));
                                assert(edited_field(ts.last()) is None);
                                assert(edited_fields(ts) is None);
                                lemma_edit_failure_persists(field_texts(fields@), i + 1);
                            }
                            return None;
                        },
                    }
                }
                i = i + 1;
            }
            proof {
                assert(field_texts(fields@).take(fields@.len() as int) =~= field_texts(fields@));
            }
            Some(Json::Object(out))
        },
        other => Some(other),
    }
}

/// WithoutNativeInstructions: native Provider instructions leave the user envelope after moving
/// to their privileged channel. The envelope must be a JSON object.
pub fn without_native_instructions(envelope: &str) -> (r: Result<String, String>)
    ensures
        match r {
            Ok(t) => native_envelope(envelope@) == Some(t@),
            Err(e) => native_envelope(envelope@) is None && e@ == invalid_input_text(),
        },
{
    let invalid = "Stored Work input is invalid".to_owned();
    let parsed = match parse_json(envelope) {
        Some(j) => j,
        None => return Err(invalid),
    };
    if !matches!(parsed, Json::Object(_)) {
        return Err(invalid);
    }
    match without_instructions(parsed) {
        Some(edited) => match json_text(&edited) {
            Some(t) => Ok(t),
            None => Err(invalid),
        },
        None => Err(invalid),
    }
}

/// What one launch hands the Provider: the envelope, whether it resumes the native session,
/// whether the envelope is a stored request, and the attachment paths it may read.
pub struct LaunchPlan {
    pub envelope: String,
    pub resume: bool,
    pub request: bool,
    pub paths: Vec<String>,
}

/// The attachment paths in order, each kept at its first occurrence only.
pub open spec fn first_occurrences(s: Seq<Seq<char>>) -> Seq<Seq<char>>
    decreases s.len(),
{
    if s.len() == 0 {
        s
    } else {
        let rest = first_occurrences(s.drop_last());
        if s.drop_last().contains(s.last()) {
            rest
        } else {
            rest.push(s.last())
        }
    }
}

fn seen_before(paths: &Vec<String>, i: usize) -> (r: bool)
    requires
        i < paths@.len(),
    ensures
        r == texts(paths@).take(i as int).contains(paths@[i as int]@),
{
    let mut j: usize = 0;
    while j < i
        invariant
            i < paths@.len(),
            j <= i,
            forall|k: int| 0 <= k < j ==> paths@[k]@ != paths@[i as int]@,
        decreases i - j,
    {
        if same_text(paths[j].as_str(), paths[i].as_str()) {
            proof {
                assert(texts(paths@).take(i as int)[j as int] == paths@[i as int]@);
            }
            return true;
        }
        j = j + 1;
    }
    proof {
        if texts(paths@).take(i as int).contains(paths@[i as int]@) {
            let k = choose|k: int|
                0 <= k < i && #[trigger] texts(paths@).take(i as int)[k] == paths@[i as int]@;
            assert(paths@[k]@ != paths@[i as int]@);
        }
    }
    false
}

fn unique_paths(paths: &Vec<String>) -> (r: Vec<String>)
    ensures
        texts(r@) == first_occurrences(texts(paths@)),
{
    let mut out: Vec<String> = Vec::new();
    let mut i: usize = 0;
    while i < paths.len()
        invariant
            i <= paths@.len(),
            texts(out@) == first_occurrences(texts(paths@).take(i as int)),
        decreases paths@.len() - i,
    {
        let ghost before = out@;
        proof {
            assert(texts(paths@).take(i + 1).drop_last() =~= texts(paths@).take(i as int));
        }
        if !seen_before(paths, i) {
            out.push(paths[i].as_str().to_owned());
            proof {
                assert(texts(out@) =~= texts(before).push(paths@[i as int]@));
            }
        }
        i = i + 1;
    }
    proof {
        assert(texts(paths@).take(paths@.len() as int) =~= texts(paths@));
    }
    out
}

pub open spec fn str_opt(s: Option<&str>) -> Option<Seq<char>> {
    match s {
        Some(x) => Some(x@),
        None => None,
    }
}

/// LaunchPlan decides what one launch hands the Provider. A steer or a repair needs a bound
/// native session (the steer is refused first); a stored request loses its native instructions
/// unless the Provider is Cursor; each attachment path is kept once, at its first occurrence.
/// `steer` is the framed follow-up input; `original` the stored Work input. For Cursor, a stored
/// request's attachment paths then move to its input view with `remap_attachment_paths`.
pub fn launch_plan(
    provider: Provider,
    native_session: &str,
    steer: Option<&str>,
    steer_delivered: bool,
    repair: bool,
    resume: bool,
    original: &str,
    paths: Vec<String>,
) -> (r: Result<LaunchPlan, String>)
    ensures
        steer is Some && native_session@.len() == 0 ==> (r matches Err(e) && e@ == steer_unbound_text()),
        steer is None && repair && native_session@.len() == 0 ==> (r matches Err(e) && e@
            == repair_unbound_text()),
        native_session@.len() != 0 || (steer is None && !repair) ==> ({
            let (env, res, req) = delivery_of(original@, str_opt(steer), steer_delivered, repair, resume);
            if req && provider != Provider::Cursor {
                match native_envelope(env) {
                    Some(t) => r matches Ok(p) && p.envelope@ == t && p.resume == res && p.request
                        == req && texts(p.paths@) == first_occurrences(texts(paths@)),
                    None => r matches Err(e) && e@ == invalid_input_text(),
                }
            } else {
                r matches Ok(p) && p.envelope@ == env && p.resume == res && p.request == req
                    && texts(p.paths@) == first_occurrences(texts(paths@))
            }
        }),
{
    let bound = crate::work_state::drive::repairs_session_for(native_session);
    if steer.is_some() && !bound {
        return Err("Steering requires a bound native session".to_owned());
    }
    if repair && !bound {
        return Err("Repair requires a bound native session".to_owned());
    }
    let delivery = crate::envelope::select(original, steer, steer_delivered, repair, resume);
    let envelope = if delivery.request && provider != Provider::Cursor {
        without_native_instructions(delivery.envelope)?
    } else {
        delivery.envelope.to_owned()
    };
    Ok(LaunchPlan {
        envelope,
        resume: delivery.resume,
        request: delivery.request,
        paths: unique_paths(&paths),
    })
}


/// The first position, from `i` on, at which `pattern` occurs in `s`.
pub open spec fn match_from(s: Seq<char>, pattern: Seq<char>, i: int) -> Option<int>
    decreases s.len() + 1 - i,
{
    if i < 0 || i + pattern.len() > s.len() {
        None
    } else if s.subrange(i, i + pattern.len()) == pattern {
        Some(i)
    } else {
        match_from(s, pattern, i + 1)
    }
}

/// The first position at which `pattern` occurs in `s`.
pub open spec fn first_match(s: Seq<char>, pattern: Seq<char>) -> Option<int> {
    match_from(s, pattern, 0)
}

/// `s` with the first occurrence of `pattern` replaced by `with`, as `str::replacen` with a
/// count of one writes it; `None` where `pattern` does not occur.
pub open spec fn replace_first(s: Seq<char>, pattern: Seq<char>, with: Seq<char>) -> Option<Seq<char>> {
    match first_match(s, pattern) {
        Some(i) => Some(s.subrange(0, i) + with + s.subrange(i + pattern.len(), s.len() as int)),
        None => None,
    }
}

proof fn lemma_match_from(s: Seq<char>, p: Seq<char>, i: int)
    requires
        0 <= i,
    ensures
        match match_from(s, p, i) {
            Some(j) => i <= j && j + p.len() <= s.len() && s.subrange(j, j + p.len()) == p
                && forall|k: int| i <= k < j ==> #[trigger] s.subrange(k, k + p.len()) != p,
            None => forall|k: int|
                i <= k && k + p.len() <= s.len() ==> #[trigger] s.subrange(k, k + p.len()) != p,
        },
    decreases s.len() + 1 - i,
{
    if i + p.len() > s.len() {
    } else if s.subrange(i, i + p.len()) == p {
    } else {
        lemma_match_from(s, p, i + 1);
    }
}

fn find_first(v: &Vec<char>, p: &Vec<char>) -> (r: Option<usize>)
    ensures
        match r {
            Some(i) => first_match(v@, p@) == Some(i as int),
            None => first_match(v@, p@) is None,
        },
{
    proof {
        lemma_match_from(v@, p@, 0);
    }
    let mut i: usize = 0;
    while i < v.len()
        invariant
            i <= v@.len(),
            forall|k: int| 0 <= k < i && k + p@.len() <= v@.len() ==> #[trigger] v@.subrange(k, k + p@.len()) != p@,
        decreases v.len() - i,
    {
        if crate::egress::matches_at(v, i, p) {
            proof {
                lemma_match_from(v@, p@, 0);
            }
            return Some(i);
        }
        i = i + 1;
    }
    proof {
        lemma_match_from(v@, p@, 0);
    }
    if crate::egress::matches_at(v, i, p) {
        return Some(i);
    }
    None
}

fn replace_first_text(t: &str, from: &str, to: &str) -> (r: Option<String>)
    ensures
        crate::evidence::opt_text(r) == replace_first(t@, from@, to@),
{
    let v = crate::text::chars_of(t);
    let p = crate::text::chars_of(from);
    match find_first(&v, &p) {
        None => None,
        Some(i) => {
            proof {
                lemma_match_from(v@, p@, 0);
                assert(first_match(v@, p@) == Some(i as int));
                assert(i + p@.len() <= v@.len());
            }
            let mut out: Vec<char> = Vec::new();
            let head = crate::text::slice_text(&v, 0, i);
            let plen: usize = p.len();
            let vlen: usize = v.len();
            assert(i + plen <= vlen);
            let end: usize = i + plen;
            let tail = crate::text::slice_text(&v, end, v.len());
            crate::text::push_text(&mut out, head.as_str());
            crate::text::push_text(&mut out, to);
            crate::text::push_text(&mut out, tail.as_str());
            Some(crate::text::string_of(out.as_slice()))
        },
    }
}

pub open spec fn path_invalid_text() -> Seq<char> {
    "Stored Work attachment path is invalid"@
}

pub open spec fn view_invalid_text() -> Seq<char> {
    "Cursor input view path is invalid"@
}

pub open spec fn path_changed_text() -> Seq<char> {
    "Stored Work attachment path changed"@
}

/// The value of the first field, from `i` on, named `key`.
pub open spec fn field_from(fields: Seq<(Seq<char>, Seq<char>)>, key: Seq<char>, i: int) -> Option<Seq<char>>
    decreases fields.len() - i,
{
    if i < 0 || i >= fields.len() {
        None
    } else if fields[i].0 == key {
        Some(fields[i].1)
    } else {
        field_from(fields, key, i + 1)
    }
}

/// The value of the first field named `key`.
pub open spec fn field_value(fields: Seq<(Seq<char>, Seq<char>)>, key: Seq<char>) -> Option<Seq<char>> {
    field_from(fields, key, 0)
}

/// The attachment items of an envelope: the items of its `attachments` array, if it has one.
pub open spec fn attachment_items(j: JsonView) -> Option<Seq<Seq<char>>> {
    match j {
        JsonView::Object(fields) => match field_value(fields, "attachments"@) {
            Some(v) => match json_of(v) {
                Some(JsonView::Array(items)) => Some(items),
                _ => None,
            },
            None => None,
        },
        _ => None,
    }
}

/// The path one attachment item names, when it names one as a string.
pub open spec fn attachment_path(item: Seq<char>) -> Option<Seq<char>> {
    match json_of(item) {
        Some(JsonView::Object(fields)) => match field_value(fields, "path"@) {
            Some(v) => match json_of(v) {
                Some(JsonView::Text(p)) => Some(p),
                _ => None,
            },
            None => None,
        },
        _ => None,
    }
}

/// Where the Cursor input view holds the copy of `original`: the first entry naming it.
pub open spec fn mapped_path(view: Seq<(Seq<char>, Seq<char>)>, original: Seq<char>) -> Option<Seq<char>> {
    field_value(view, original)
}

/// One attachment item's path moved to its view copy inside `text`.
pub open spec fn remap_step(text: Seq<char>, item: Seq<char>, view: Seq<(Seq<char>, Seq<char>)>) -> Result<Seq<char>, Seq<char>> {
    match attachment_path(item) {
        None => Err(path_invalid_text()),
        Some(original) => match mapped_path(view, original) {
            None => Err(view_invalid_text()),
            Some(mapped) => match json_written(JsonView::Text(original)) {
                None => Err(invalid_input_text()),
                Some(quoted) => match json_written(JsonView::Text(mapped)) {
                    None => Err(view_invalid_text()),
                    Some(moved) => match replace_first(text, "\"path\":"@ + quoted, "\"path\":"@ + moved) {
                        None => Err(path_changed_text()),
                        Some(t) => Ok(t),
                    },
                },
            },
        },
    }
}

/// Every attachment item's path moved in turn, the first failure ending the remap.
pub open spec fn remap_items(text: Seq<char>, items: Seq<Seq<char>>, view: Seq<(Seq<char>, Seq<char>)>) -> Result<Seq<char>, Seq<char>>
    decreases items.len(),
{
    if items.len() == 0 {
        Ok(text)
    } else {
        match remap_items(text, items.drop_last(), view) {
            Err(e) => Err(e),
            Ok(t) => remap_step(t, items.last(), view),
        }
    }
}

/// The envelope Cursor receives: its attachment paths moved to the input view's copies.
pub open spec fn remapped_envelope(envelope: Seq<char>, view: Seq<(Seq<char>, Seq<char>)>) -> Result<Seq<char>, Seq<char>> {
    match json_of(envelope) {
        None => Err(invalid_input_text()),
        Some(j) => match attachment_items(j) {
            None => Ok(envelope),
            Some(items) => remap_items(envelope, items, view),
        },
    }
}

proof fn lemma_remap_failure_persists(text: Seq<char>, s: Seq<Seq<char>>, view: Seq<(Seq<char>, Seq<char>)>, k: int)
    requires
        0 <= k <= s.len(),
        remap_items(text, s.take(k), view) is Err,
    ensures
        remap_items(text, s, view) == remap_items(text, s.take(k), view),
    decreases s.len(),
{
    if s.len() > k {
        assert(s.drop_last().take(k) =~= s.take(k));
        lemma_remap_failure_persists(text, s.drop_last(), view, k);
    } else {
        assert(s.take(k) =~= s);
    }
}

pub(crate) fn field_named(fields: &Vec<(String, String)>, key: &str) -> (r: Option<String>)
    ensures
        crate::evidence::opt_text(r) == field_value(field_texts(fields@), key@),
{
    let mut i: usize = 0;
    while i < fields.len()
        invariant
            i <= fields@.len(),
            field_value(field_texts(fields@), key@) == field_from(field_texts(fields@), key@, i as int),
        decreases fields.len() - i,
    {
        if same_text(fields[i].0.as_str(), key) {
            return Some(fields[i].1.as_str().to_owned());
        }
        i = i + 1;
    }
    None
}

fn view_copy(view: &Vec<(String, String)>, original: &str) -> (r: Option<String>)
    ensures
        crate::evidence::opt_text(r) == mapped_path(field_texts(view@), original@),
{
    field_named(view, original)
}

pub open spec fn remap_result(r: Result<String, String>) -> Result<Seq<char>, Seq<char>> {
    match r {
        Ok(t) => Ok(t@),
        Err(e) => Err(e@),
    }
}

fn remap_one(text: &str, item: &str, view: &Vec<(String, String)>) -> (r: Result<String, String>)
    ensures
        remap_result(r) == remap_step(text@, item@, field_texts(view@)),
{
    let fields = match parse_json(item) {
        Some(Json::Object(fields)) => fields,
        _ => return Err("Stored Work attachment path is invalid".to_owned()),
    };
    let original = match field_named(&fields, "path") {
        Some(v) => match parse_json(v.as_str()) {
            Some(Json::Text(p)) => p,
            _ => return Err("Stored Work attachment path is invalid".to_owned()),
        },
        None => return Err("Stored Work attachment path is invalid".to_owned()),
    };
    let mapped = match view_copy(view, original.as_str()) {
        Some(m) => m,
        None => return Err("Cursor input view path is invalid".to_owned()),
    };
    let quoted = match json_text(&Json::Text(original)) {
        Some(q) => q,
        None => return Err("Stored Work input is invalid".to_owned()),
    };
    let moved = match json_text(&Json::Text(mapped)) {
        Some(m) => m,
        None => return Err("Cursor input view path is invalid".to_owned()),
    };
    let mut from: Vec<char> = Vec::new();
    crate::text::push_text(&mut from, "\"path\":");
    crate::text::push_text(&mut from, quoted.as_str());
    let mut to: Vec<char> = Vec::new();
    crate::text::push_text(&mut to, "\"path\":");
    crate::text::push_text(&mut to, moved.as_str());
    let from = crate::text::string_of(from.as_slice());
    let to = crate::text::string_of(to.as_slice());
    match replace_first_text(text, from.as_str(), to.as_str()) {
        Some(t) => Ok(t),
        None => Err("Stored Work attachment path changed".to_owned()),
    }
}

/// RemapAttachmentPaths changes only Cursor's disposable attachment locations, never request
/// text: each attachment's `"path":` entry is moved, in order, to the copy `view` names for it
/// (`view` pairs each original path with its copy).
pub fn remap_attachment_paths(envelope: &str, view: &Vec<(String, String)>) -> (r: Result<String, String>)
    ensures
        remap_result(r) == remapped_envelope(envelope@, field_texts(view@)),
{
    let parsed = match parse_json(envelope) {
        Some(j) => j,
        None => return Err("Stored Work input is invalid".to_owned()),
    };
    let items = match parsed {
        Json::Object(fields) => match field_named(&fields, "attachments") {
            Some(v) => match parse_json(v.as_str()) {
                Some(Json::Array(items)) => items,
                _ => return Ok(envelope.to_owned()),
            },
            None => return Ok(envelope.to_owned()),
        },
        _ => return Ok(envelope.to_owned()),
    };
    let ghost its = texts(items@);
    assert(remapped_envelope(envelope@, field_texts(view@)) == remap_items(envelope@, its, field_texts(view@)));
    let mut remapped = envelope.to_owned();
    let mut i: usize = 0;
    while i < items.len()
        invariant
            i <= items@.len(),
            its == texts(items@),
            remapped_envelope(envelope@, field_texts(view@)) == remap_items(envelope@, its, field_texts(view@)),
            remap_items(envelope@, its.take(i as int), field_texts(view@)) == Ok::<Seq<char>, Seq<char>>(remapped@),
        decreases items.len() - i,
    {
        proof {
            assert(its.take(i + 1).drop_last() =~= its.take(i as int));
        }
        match remap_one(remapped.as_str(), items[i].as_str(), view) {
            Ok(t) => {
                proof {
                    assert(its.take(i + 1).last() == items@[i as int]@);
                }
                remapped = t;
            },
            Err(e) => {
                proof {
                    assert(its.take(i + 1).last() == items@[i as int]@);
                    lemma_remap_failure_persists(envelope@, its, field_texts(view@), i + 1);
                }
                return Err(e);
            },
        }
        i = i + 1;
    }
    proof {
        assert(its.take(items@.len() as int) =~= its);
    }
    Ok(remapped)
}


pub open spec fn identity_invalid_text() -> Seq<char> {
    "Steer attachment identity is invalid"@
}

pub open spec fn bytes_changed_text() -> Seq<char> {
    "Steer attachment bytes changed after staging"@
}

pub open spec fn root_invalid_text() -> Seq<char> {
    "Steer attachment root is invalid"@
}

/// `root` as the directory prefix of a path directly beneath it.
pub open spec fn dir_prefix(root: Seq<char>) -> Seq<char> {
    if root.len() == 0 || root.last() == '/' {
        root
    } else {
        root + "/"@
    }
}

/// The file name of a path that lies directly beneath `root`.
pub open spec fn name_under(path: Seq<char>, root: Seq<char>) -> Option<Seq<char>> {
    let prefix = dir_prefix(root);
    if prefix.len() < path.len() && path.subrange(0, prefix.len() as int) == prefix
        && !path.subrange(prefix.len() as int, path.len() as int).contains('/') {
        Some(path.subrange(prefix.len() as int, path.len() as int))
    } else {
        None
    }
}

/// What one staged file was found to be: whether it is a readonly regular file that is not a
/// link, its length, and its digest (read only when the first two already match).
pub open spec fn found_view(f: Result<(bool, u64, Result<String, String>), String>) -> Result<(bool, u64, Result<Seq<char>, Seq<char>>), Seq<char>> {
    match f {
        Ok((shape, len, digest)) => Ok((shape, len, match digest {
            Ok(d) => Ok(d@),
            Err(e) => Err(e@),
        })),
        Err(e) => Err(e@),
    }
}

pub open spec fn found_views(v: Seq<Result<(bool, u64, Result<String, String>), String>>) -> Seq<Result<(bool, u64, Result<Seq<char>, Seq<char>>), Seq<char>>> {
    v.map_values(|f: Result<(bool, u64, Result<String, String>), String>| found_view(f))
}

/// Whether the `i`th follow-up attachment names itself validly: a non-blank identity without
/// control characters, used by no earlier attachment, a path no earlier attachment used, lying
/// directly beneath `root` under an accepted nonce name, and an accepted digest nonce.
pub open spec fn staged_identity_ok(inputs: Seq<StagedView>, i: int, root: Seq<char>) -> bool {
    let x = inputs[i];
    &&& !is_blank_spec(x.id)
    &&& !has_control_spec(x.id)
    &&& forall|j: int| 0 <= j < i ==> (#[trigger] inputs[j]).id != x.id
    &&& forall|j: int| 0 <= j < i ==> (#[trigger] inputs[j]).path != x.path
    &&& name_under(x.path, root) matches Some(name) && nonce_accepted(name)
    &&& nonce_accepted(x.sha256)
}

/// Why the `i`th follow-up attachment is refused, if it is.
pub open spec fn staged_fault(
    inputs: Seq<StagedView>,
    found: Seq<Result<(bool, u64, Result<Seq<char>, Seq<char>>), Seq<char>>>,
    i: int,
    root: Seq<char>,
) -> Option<Seq<char>> {
    if !staged_identity_ok(inputs, i, root) {
        Some(identity_invalid_text())
    } else {
        match found[i] {
            Err(e) => Some(e),
            Ok((shape, len, digest)) => if !shape || len != inputs[i].bytes {
                Some(bytes_changed_text())
            } else {
                match digest {
                    Err(e) => Some(e),
                    Ok(d) => if d != inputs[i].sha256 {
                        Some(bytes_changed_text())
                    } else {
                        None
                    },
                }
            },
        }
    }
}

fn staged_name(path: &str, root: &str) -> (r: Option<String>)
    ensures
        crate::evidence::opt_text(r) == name_under(path@, root@),
{
    let r = crate::text::chars_of(root);
    let mut prefix: Vec<char> = Vec::new();
    crate::text::push_text(&mut prefix, root);
    if r.len() != 0 && r[r.len() - 1] != '/' {
        crate::text::push_text(&mut prefix, "/");
    }
    proof {
        assert(prefix@ == dir_prefix(root@));
    }
    let prefix = crate::text::string_of(prefix.as_slice());
    let v = crate::text::chars_of(path);
    let n = crate::text::chars_of(prefix.as_str()).len();
    let ghost pre = dir_prefix(root@);
    assert(prefix@ == pre);
    if !(n < v.len()) || !crate::text::has_prefix(path, prefix.as_str()) {
        proof {
            assert(!(pre.len() < path@.len() && path@.subrange(0, pre.len() as int) == pre));
        }
        return None;
    }
    let name = crate::text::slice_text(&v, n, v.len());
    let nv = crate::text::chars_of(name.as_str());
    assert(nv@ == path@.subrange(pre.len() as int, path@.len() as int));
    match crate::text::find_char(&nv, '/') {
        Some(k) => {
            proof {
                crate::text::lemma_first_index(nv@, '/');
                assert(nv@[k as int] == '/');
                assert(nv@.contains('/'));
            }
            None
        },
        None => {
            proof {
                crate::text::lemma_first_index(nv@, '/');
                assert(!nv@.contains('/'));
            }
            Some(name)
        },
    }
}

/// ValidateSteerInputs accepts exact readonly staged bytes owned by this Work once each. `root`
/// is the Work's private input root and `root_state` what inspecting it found (whether it is a
/// directory that is not a link); `found[i]` is what inspecting the `i`th attachment's file
/// found, or the message of the failure that stopped it.
pub fn validate_steer_inputs(
    root: &str,
    root_state: Result<bool, String>,
    inputs: &Vec<StagedInput>,
    found: &Vec<Result<(bool, u64, Result<String, String>), String>>,
) -> (r: Result<(), String>)
    requires
        found@.len() == inputs@.len(),
    ensures
        inputs@.len() == 0 ==> r is Ok,
        inputs@.len() != 0 ==> match root_state {
            Err(e) => r matches Err(m) && m@ == e@,
            Ok(false) => r matches Err(m) && m@ == root_invalid_text(),
            Ok(true) => match r {
                Ok(()) => forall|i: int|
                    0 <= i < inputs@.len() ==> #[trigger] staged_fault(
                        staged(inputs@),
                        found_views(found@),
                        i,
                        root@,
                    ) is None,
                Err(m) => exists|i: int|
                    0 <= i < inputs@.len() && (forall|k: int|
                        0 <= k < i ==> #[trigger] staged_fault(
                            staged(inputs@),
                            found_views(found@),
                            k,
                            root@,
                        ) is None) && staged_fault(
                        staged(inputs@),
                        found_views(found@),
                        i,
                        root@,
                    ) == Some(m@),
            },
        },
{
    if inputs.len() == 0 {
        return Ok(());
    }
    match &root_state {
        Err(e) => return Err(e.as_str().to_owned()),
        Ok(false) => return Err("Steer attachment root is invalid".to_owned()),
        Ok(true) => {},
    }
    let ghost xs = staged(inputs@);
    let ghost fs = found_views(found@);
    let mut i: usize = 0;
    while i < inputs.len()
        invariant
            i <= inputs@.len(),
            inputs@.len() != 0,
            root_state == Ok::<bool, String>(true),
            found@.len() == inputs@.len(),
            xs == staged(inputs@),
            fs == found_views(found@),
            forall|k: int| 0 <= k < i ==> #[trigger] staged_fault(xs, fs, k, root@) is None,
        decreases inputs.len() - i,
    {
        let x = &inputs[i];
        let mut unique = true;
        let mut j: usize = 0;
        while j < i
            invariant
                i < inputs@.len(),
                j <= i,
                xs == staged(inputs@),
                unique == (forall|k: int| 0 <= k < j ==> (#[trigger] xs[k]).id != xs[i as int].id
                    && xs[k].path != xs[i as int].path),
            decreases i - j,
        {
            proof {
                assert(xs[j as int] == inputs@[j as int]@);
                assert(xs[i as int] == inputs@[i as int]@);
            }
            if same_text(inputs[j].id.as_str(), inputs[i].id.as_str())
                || same_text(inputs[j].path.as_str(), inputs[i].path.as_str()) {
                unique = false;
            }
            j = j + 1;
        }
        let named = match staged_name(x.path.as_str(), root) {
            Some(name) => crate::nonce::valid_nonce(name.as_str()),
            None => false,
        };
        let owned = !crate::text::is_blank(x.id.as_str()) && !crate::text::has_control(x.id.as_str())
            && unique && named && crate::nonce::valid_nonce(x.sha256.as_str());
        proof {
            assert(xs[i as int] == inputs@[i as int]@);
            assert(fs[i as int] == found_view(found@[i as int]));
            assert(owned == staged_identity_ok(xs, i as int, root@));
        }
        if !owned {
            proof {
                assert(staged_fault(xs, fs, i as int, root@) == Some(identity_invalid_text()));
            }
            return Err("Steer attachment identity is invalid".to_owned());
        }
        match &found[i] {
            Err(e) => {
                proof {
                    assert(staged_fault(xs, fs, i as int, root@) == Some(e@));
                }
                return Err(e.as_str().to_owned());
            },
            Ok((shape, len, digest)) => {
                if !*shape || *len != x.bytes {
                    proof {
                        assert(staged_fault(xs, fs, i as int, root@) == Some(bytes_changed_text()));
                    }
                    return Err("Steer attachment bytes changed after staging".to_owned());
                }
                match digest {
                    Err(e) => {
                        proof {
                            assert(staged_fault(xs, fs, i as int, root@) == Some(e@));
                        }
                        return Err(e.as_str().to_owned());
                    },
                    Ok(d) => {
                        if !same_text(d.as_str(), x.sha256.as_str()) {
                            proof {
                                assert(staged_fault(xs, fs, i as int, root@) == Some(bytes_changed_text()));
                            }
                            return Err("Steer attachment bytes changed after staging".to_owned());
                        }
                    },
                }
            },
        }
        i = i + 1;
    }
    Ok(())
}


/// Where a Work's immutable input lives now, beneath its session's control directory.
pub open spec fn current_input(session: Seq<char>) -> Seq<char> {
    crate::receipt::joined_path(crate::receipt::joined_path(session, ".app"@), "input.json"@)
}

/// Where an earlier layout kept a Work's immutable input.
pub open spec fn prior_input(session: Seq<char>) -> Seq<char> {
    crate::receipt::joined_path(session, "input.json"@)
}

/// InputPaths names a session's current and prior input locations.
pub fn input_paths(session: &str) -> (r: (String, String))
    ensures
        r.0@ == current_input(session@),
        r.1@ == prior_input(session@),
{
    let control = crate::receipt::join_path(session, ".app");
    (crate::receipt::join_path(control.as_str(), "input.json"), crate::receipt::join_path(session, "input.json"))
}

/// Where the bytes of a migrated input come from.
#[derive(Clone, Copy, PartialEq, Eq, Structural, Debug)]
pub enum InputSource {
    /// The input file of the earlier layout.
    Prior,
    /// The input text the saved record carried.
    Legacy,
    /// The file already at the current location.
    Current,
}

/// What restoring a saved input does.
#[derive(Clone, Copy, PartialEq, Eq, Structural, Debug)]
pub enum InputStep {
    /// The record already names the current location: read it and keep it.
    Accept,
    /// Write the bytes from this source to the current location.
    Migrate(InputSource),
}

pub open spec fn input_step(
    session: Seq<char>,
    path: Seq<char>,
    legacy_empty: bool,
    prior_exists: bool,
    current_exists: bool,
) -> Result<InputStep, Seq<char>> {
    if path == current_input(session) {
        Ok(InputStep::Accept)
    } else if path.len() != 0 && path != prior_input(session) {
        Err("Stored Work input path changed"@)
    } else if prior_exists {
        Ok(InputStep::Migrate(InputSource::Prior))
    } else if !legacy_empty {
        Ok(InputStep::Migrate(InputSource::Legacy))
    } else if current_exists {
        Ok(InputStep::Migrate(InputSource::Current))
    } else {
        Err(invalid_input_text())
    }
}

/// InputPlan decides how a saved Work's input path is restored: the current location is kept,
/// any other named path is refused, and an unnamed or earlier-layout input is migrated from the
/// earlier file first, then from the record's own text, then from a file already in place.
pub fn input_plan(
    session: &str,
    path: &str,
    legacy: &str,
    prior_exists: bool,
    current_exists: bool,
) -> (r: Result<InputStep, String>)
    ensures
        match r {
            Ok(step) => input_step(session@, path@, legacy@.len() == 0, prior_exists, current_exists)
                == Ok::<InputStep, Seq<char>>(step),
            Err(e) => input_step(session@, path@, legacy@.len() == 0, prior_exists, current_exists)
                == Err::<InputStep, Seq<char>>(e@),
        },
{
    let (current, prior) = input_paths(session);
    if same_text(path, current.as_str()) {
        return Ok(InputStep::Accept);
    }
    if crate::text::chars_of(path).len() != 0 && !same_text(path, prior.as_str()) {
        return Err("Stored Work input path changed".to_owned());
    }
    if prior_exists {
        Ok(InputStep::Migrate(InputSource::Prior))
    } else if crate::text::chars_of(legacy).len() != 0 {
        Ok(InputStep::Migrate(InputSource::Legacy))
    } else if current_exists {
        Ok(InputStep::Migrate(InputSource::Current))
    } else {
        Err("Stored Work input is invalid".to_owned())
    }
}

/// LegacyAgrees refuses recovered input bytes that differ from the text the record carried.
pub fn legacy_agrees(bytes: &str, legacy: &str) -> (r: Result<(), String>)
    ensures
        r is Ok <==> (legacy@.len() == 0 || bytes@ == legacy@),
        r matches Err(e) ==> e@ == "Stored Work input changed during legacy recovery"@,
{
    if crate::text::chars_of(legacy).len() != 0 && !same_text(bytes, legacy) {
        return Err("Stored Work input changed during legacy recovery".to_owned());
    }
    Ok(())
}

/// MigrationAgrees refuses a migration whose current file already holds other bytes.
pub fn migration_agrees(existing: &str, bytes: &str) -> (r: Result<(), String>)
    ensures
        r is Ok <==> existing@ == bytes@,
        r matches Err(e) ==> e@ == "Stored Work input changed during migration"@,
{
    if !same_text(existing, bytes) {
        return Err("Stored Work input changed during migration".to_owned());
    }
    Ok(())
}

} // verus!
