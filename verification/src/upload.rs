//! Streaming upload sessions.
//!
//! A session knows how many bytes were appended to its staging file and the
//! digests of the parts that they came in. Files are left to the caller, who is
//! told when a staging file is to go.

use crate::parts::PartDigests;
use crate::text::{decimal_text, hex_text, joined, same_text};
use crate::types::{StoreError, StoreErrorView};
use vstd::prelude::*;
use vstd::string::*;

verus! {

/// Nanoseconds in a second.
pub const NANOS_PER_SEC: u128 = 1_000_000_000;

/// One upload session.
pub struct UploadSession {
    id: String,
    namespace: String,
    offset: u64,
    max_size: u64,
    created_at: u128,
    parts: Vec<PartDigests>,
}

/// An upload session as a mathematical value.
#[verifier::ext_equal]
pub struct SessionView {
    /// The namespace that the upload is for.
    pub namespace: Seq<char>,
    /// Bytes in the staging file.
    pub offset: int,
    /// The most bytes that are accepted; zero for no limit.
    pub max_size: int,
    /// When the session began, in nanoseconds of the caller's clock.
    pub created_at: int,
    /// The parts appended in this session.
    pub parts: Seq<PartDigests>,
}

impl View for UploadSession {
    type V = SessionView;

    closed spec fn view(&self) -> SessionView {
        SessionView {
            namespace: self.namespace@,
            offset: self.offset as int,
            max_size: self.max_size as int,
            created_at: self.created_at as int,
            parts: self.parts@,
        }
    }
}

impl SessionView {
    /// Parts are numbered from one and follow each other up to the end of the
    /// staging file; what was appended keeps to the limit.
    pub open spec fn wf(self) -> bool {
        &&& 0 <= self.offset <= u64::MAX
        &&& 0 <= self.max_size <= u64::MAX
        &&& forall|i: int|
            0 <= i < self.parts.len() ==> (#[trigger] self.parts[i]).part_number == i + 1
        &&& forall|i: int|
            0 <= i < self.parts.len() ==> self.end_of(i) == if i + 1 < self.parts.len() {
                self.parts[i + 1].offset as int
            } else {
                self.offset
            }
        &&& self.max_size > 0 && self.parts.len() > 0 ==> self.offset <= self.max_size
    }

    /// Where the `i`-th part ends.
    pub open spec fn end_of(self, i: int) -> int {
        self.parts[i].offset + self.parts[i].size
    }

    /// Older at `now` than the timeout.
    pub open spec fn expired(self, timeout_secs: int, now: int) -> bool {
        now - self.created_at > timeout_secs * NANOS_PER_SEC
    }

    /// The session with one more part appended.
    pub open spec fn appended(self, part: PartDigests) -> SessionView {
        SessionView {
            offset: self.offset + part.size,
            parts: self.parts.push(part),
            ..self
        }
    }

    /// `after` is the session with one more part, which is `data`.
    pub open spec fn grown_by(self, after: SessionView, data: Seq<u8>) -> bool {
        &&& after.parts.len() == self.parts.len() + 1
        &&& after == self.appended(after.parts.last())
        &&& after.parts.last().describes(self.parts.len() as int + 1, self.offset, data)
    }
}

/// A session that nothing was appended in yet.
pub open spec fn fresh_session(
    namespace: Seq<char>,
    offset: int,
    max_size: int,
    now: int,
) -> SessionView {
    SessionView { namespace, offset, max_size, created_at: now, parts: Seq::empty() }
}

/// Why a session was not granted, and whether its staging file is to go.
#[derive(Debug)]
pub struct Refusal {
    pub error: StoreError,
    pub remove_staging: bool,
}

/// What was found of a session.
#[derive(Debug)]
pub enum Lookup<T> {
    /// The session is there.
    Found(T),
    /// There is no such session.
    Missing,
    /// The session was too old and is gone; its staging file is to go too.
    Expired,
}

/// The error of an upload that is not there.
pub open spec fn no_upload(id: Seq<char>) -> StoreErrorView {
    StoreErrorView::NotFound("upload "@ + id)
}

/// The error of an upload that is too old.
pub open spec fn upload_expired(id: Seq<char>) -> StoreErrorView {
    StoreErrorView::NotFound("upload "@ + id + " expired"@)
}

/// The error of an upload that is not there.
fn no_upload_error(id: &str) -> (error: StoreError)
    ensures
        error@ == no_upload(id@),
{
    StoreError::NotFound(joined("upload ", id))
}

/// The error of an upload that is too old.
fn upload_expired_error(id: &str) -> (error: StoreError)
    ensures
        error@ == upload_expired(id@),
{
    let mut text = joined("upload ", id);
    text.append(" expired");
    StoreError::NotFound(text)
}

/// The sessions, each under its own id.
pub struct UploadSessions {
    sessions: Vec<UploadSession>,
    timeout_secs: Option<u64>,
}

/// A session with this id is among them.
spec fn has_id(sessions: Seq<UploadSession>, id: Seq<char>) -> bool {
    exists|i: int| 0 <= i < sessions.len() && #[trigger] sessions[i].id@ == id
}

/// The session with this id.
spec fn with_id(sessions: Seq<UploadSession>, id: Seq<char>) -> SessionView {
    sessions[choose|i: int| 0 <= i < sessions.len() && #[trigger] sessions[i].id@ == id]@
}

/// The sessions by id.
spec fn by_id(sessions: Seq<UploadSession>) -> Map<Seq<char>, SessionView> {
    Map::new(|id: Seq<char>| has_id(sessions, id), |id: Seq<char>| with_id(sessions, id))
}

/// No two sessions have the same id.
spec fn distinct_ids(sessions: Seq<UploadSession>) -> bool {
    forall|i: int, j: int|
        0 <= i < sessions.len() && 0 <= j < sessions.len() && #[trigger] sessions[i].id@
            == #[trigger] sessions[j].id@ ==> i == j
}

/// The map holds each session under its id.
proof fn by_id_at(sessions: Seq<UploadSession>, i: int)
    requires
        distinct_ids(sessions),
        0 <= i < sessions.len(),
    ensures
        by_id(sessions).contains_key(sessions[i].id@),
        by_id(sessions)[sessions[i].id@] == sessions[i]@,
{
    let id = sessions[i].id@;
    let j = choose|j: int| 0 <= j < sessions.len() && #[trigger] sessions[j].id@ == id;
    assert(sessions[j].id@ == sessions[i].id@);
}

/// One more session is one more entry.
proof fn by_id_push(sessions: Seq<UploadSession>, session: UploadSession)
    requires
        distinct_ids(sessions),
        !by_id(sessions).contains_key(session.id@),
    ensures
        distinct_ids(sessions.push(session)),
        by_id(sessions.push(session)) == by_id(sessions).insert(session.id@, session@),
{
    let longer = sessions.push(session);
    assert forall|i: int, j: int|
        0 <= i < longer.len() && 0 <= j < longer.len() && #[trigger] longer[i].id@
            == #[trigger] longer[j].id@ implies i == j by {
        if i < sessions.len() {
            by_id_at(sessions, i);
        }
        if j < sessions.len() {
            by_id_at(sessions, j);
        }
    }
    let target = by_id(sessions).insert(session.id@, session@);
    assert forall|id: Seq<char>| by_id(longer).contains_key(id) == target.contains_key(id) by {
        if has_id(sessions, id) {
            let i = choose|i: int| 0 <= i < sessions.len() && #[trigger] sessions[i].id@ == id;
            assert(longer[i].id@ == id);
        }
        if has_id(longer, id) && id != session.id@ {
            let i = choose|i: int| 0 <= i < longer.len() && #[trigger] longer[i].id@ == id;
            assert(sessions[i].id@ == id);
        }
        assert(longer[sessions.len() as int].id@ == session.id@);
    }
    assert forall|id: Seq<char>| #[trigger]
        by_id(longer).contains_key(id) implies by_id(longer)[id] == target[id] by {
        let i = choose|i: int| 0 <= i < longer.len() && #[trigger] longer[i].id@ == id;
        by_id_at(longer, i);
        if i < sessions.len() {
            by_id_at(sessions, i);
        }
    }
    assert(by_id(longer) =~= target);
}

/// One session fewer is one entry fewer.
proof fn by_id_remove(sessions: Seq<UploadSession>, i: int)
    requires
        distinct_ids(sessions),
        0 <= i < sessions.len(),
    ensures
        distinct_ids(sessions.remove(i)),
        by_id(sessions.remove(i)) == by_id(sessions).remove(sessions[i].id@),
{
    let shorter = sessions.remove(i);
    let target = by_id(sessions).remove(sessions[i].id@);
    assert forall|a: int, b: int|
        0 <= a < shorter.len() && 0 <= b < shorter.len() && #[trigger] shorter[a].id@
            == #[trigger] shorter[b].id@ implies a == b by {
        let x = if a < i { a } else { a + 1 };
        let y = if b < i { b } else { b + 1 };
        assert(sessions[x].id@ == sessions[y].id@);
    }
    assert forall|id: Seq<char>| by_id(shorter).contains_key(id) == target.contains_key(id) by {
        if has_id(shorter, id) {
            let a = choose|a: int| 0 <= a < shorter.len() && #[trigger] shorter[a].id@ == id;
            let x = if a < i { a } else { a + 1 };
            assert(sessions[x].id@ == id);
            assert(sessions[x].id@ != sessions[i].id@);
        }
        if target.contains_key(id) {
            let x = choose|x: int| 0 <= x < sessions.len() && #[trigger] sessions[x].id@ == id;
            let a = if x < i { x } else { x - 1 };
            assert(shorter[a].id@ == id);
        }
    }
    assert forall|id: Seq<char>| #[trigger]
        by_id(shorter).contains_key(id) implies by_id(shorter)[id] == target[id] by {
        let a = choose|a: int| 0 <= a < shorter.len() && #[trigger] shorter[a].id@ == id;
        let x = if a < i { a } else { a + 1 };
        by_id_at(shorter, a);
        by_id_at(sessions, x);
    }
    assert(by_id(shorter) =~= target);
}

/// A changed session under the same id is a changed entry.
proof fn by_id_update(sessions: Seq<UploadSession>, i: int, session: UploadSession)
    requires
        distinct_ids(sessions),
        0 <= i < sessions.len(),
        session.id@ == sessions[i].id@,
    ensures
        distinct_ids(sessions.update(i, session)),
        by_id(sessions.update(i, session)) == by_id(sessions).insert(session.id@, session@),
{
    let changed = sessions.update(i, session);
    let target = by_id(sessions).insert(session.id@, session@);
    assert forall|a: int, b: int|
        0 <= a < changed.len() && 0 <= b < changed.len() && #[trigger] changed[a].id@
            == #[trigger] changed[b].id@ implies a == b by {
        assert(sessions[a].id@ == sessions[b].id@);
    }
    assert forall|id: Seq<char>| by_id(changed).contains_key(id) == target.contains_key(id) by {
        if has_id(changed, id) {
            let a = choose|a: int| 0 <= a < changed.len() && #[trigger] changed[a].id@ == id;
            assert(sessions[a].id@ == id);
        }
        if target.contains_key(id) {
            assert(changed[i].id@ == session.id@);
            if id != session.id@ {
                let a = choose|a: int| 0 <= a < sessions.len() && #[trigger] sessions[a].id@ == id;
                assert(changed[a].id@ == id);
            }
        }
    }
    assert forall|id: Seq<char>| #[trigger]
        by_id(changed).contains_key(id) implies by_id(changed)[id] == target[id] by {
        let a = choose|a: int| 0 <= a < changed.len() && #[trigger] changed[a].id@ == id;
        by_id_at(changed, a);
        by_id_at(sessions, a);
    }
    assert(by_id(changed) =~= target);
}

impl View for UploadSessions {
    type V = Map<Seq<char>, SessionView>;

    /// The sessions by id.
    closed spec fn view(&self) -> Map<Seq<char>, SessionView> {
        by_id(self.sessions@)
    }
}

impl UploadSessions {
    /// Every session is well-formed and has an id of its own.
    pub closed spec fn wf(self) -> bool {
        &&& distinct_ids(self.sessions@)
        &&& forall|id: Seq<char>| #[trigger] self@.contains_key(id) ==> self@[id].wf()
    }

    /// The age in seconds past which a session is refused, if there is one.
    pub closed spec fn timeout(self) -> Option<u64> {
        self.timeout_secs
    }

    /// The session is there and too old.
    pub open spec fn stale(self, id: Seq<char>, now: int) -> bool {
        &&& self@.contains_key(id)
        &&& self.timeout() matches Some(secs) && self@[id].expired(secs as int, now)
    }

    /// No sessions.
    pub fn new(timeout_secs: Option<u64>) -> (sessions: Self)
        ensures
            sessions.wf(),
            sessions@ == Map::<Seq<char>, SessionView>::empty(),
            sessions.timeout() == timeout_secs,
    {
        let sessions = UploadSessions { sessions: Vec::new(), timeout_secs };
        assert(sessions@ =~= Map::<Seq<char>, SessionView>::empty());
        sessions
    }

    /// Where the session stands.
    fn find(&self, id: &str) -> (at: Option<usize>)
        requires
            self.wf(),
        ensures
            match at {
                Some(i) => {
                    &&& i < self.sessions@.len()
                    &&& self.sessions@[i as int].id@ == id@
                    &&& self@.contains_key(id@)
                    &&& self@[id@] == self.sessions@[i as int]@
                },
                None => !self@.contains_key(id@),
            },
    {
        let mut i: usize = 0;
        while i < self.sessions.len()
            invariant
                i <= self.sessions@.len(),
                distinct_ids(self.sessions@),
                forall|j: int| 0 <= j < i ==> #[trigger] self.sessions@[j].id@ != id@,
            decreases self.sessions@.len() - i,
        {
            if same_text(self.sessions[i].id.as_str(), id) {
                proof {
                    by_id_at(self.sessions@, i as int);
                }
                return Some(i);
            }
            i = i + 1;
        }
        None
    }

    /// Whether the session at `i` is too old.
    fn is_stale(&self, i: usize, now: u128) -> (stale: bool)
        requires
            i < self.sessions@.len(),
        ensures
            stale == (self.timeout() matches Some(secs) && self.sessions@[i as int]@.expired(
                secs as int,
                now as int,
            )),
    {
        match self.timeout_secs {
            Some(secs) => older_than(&self.sessions[i], secs, now),
            None => false,
        }
    }

    /// Remove the session if it is there.
    fn remove(&mut self, id: &str) -> (removed: Option<UploadSession>)
        requires
            old(self).wf(),
        ensures
            final(self).wf(),
            final(self).timeout() == old(self).timeout(),
            final(self)@ == old(self)@.remove(id@),
            match removed {
                Some(session) => old(self)@.contains_key(id@) && session@ == old(self)@[id@],
                None => !old(self)@.contains_key(id@),
            },
    {
        match self.find(id) {
            Some(i) => {
                proof {
                    by_id_remove(self.sessions@, i as int);
                }
                let session = self.sessions.remove(i);
                Some(session)
            },
            None => {
                assert(self@.remove(id@) =~= self@);
                None
            },
        }
    }
}

/// Whether the session is older at `now` than the timeout.
fn older_than(session: &UploadSession, timeout_secs: u64, now: u128) -> (older: bool)
    ensures
        older == session@.expired(timeout_secs as int, now as int),
{
    now > session.created_at && now - session.created_at > timeout_secs as u128 * NANOS_PER_SEC
}

/// The text between quotes as `Debug` writes it, with escapes.
pub uninterp spec fn debug_quoted(text: Seq<char>) -> Seq<char>;

/// Calls the `Debug` formatting of `str`, trusted to be a function of the text.
#[verifier::external_body]
fn quoted(text: &str) -> (quoted: String)
    ensures
        quoted@ == debug_quoted(text@),
{
    format!("{:?}", text)
}

/// The text of a random UUID: 36 characters, hyphens at four places and
/// lower-case hexadecimal digits at the others, with the version and the variant
/// at theirs.
pub open spec fn random_uuid_text(id: Seq<char>) -> bool {
    &&& id.len() == 36
    &&& forall|i: int|
        0 <= i < id.len() ==> if i == 8 || i == 13 || i == 18 || i == 23 {
            #[trigger] id[i] == '-'
        } else {
            crate::text::hex_digits().contains(id[i])
        }
    &&& id[14] == '4'
    &&& id[19] == '8' || id[19] == '9' || id[19] == 'a' || id[19] == 'b'
}

/// Calls `uuid::Uuid::new_v4` and writes the result as text. The id is random;
/// trusted is that it has the form of such a text. The call does not return where
/// the system has no randomness to give.
#[verifier::external_body]
pub(crate) fn random_id() -> (id: String)
    ensures
        random_uuid_text(id@),
{
    uuid::Uuid::new_v4().to_string()
}

/// The id is what one draw of a random UUID returned.
pub closed spec fn drawn_id(id: String) -> bool {
    call_ensures(random_id, (), id)
}

/// An id that can be a file name: not empty, without a path separator, and not
/// one of the two names of directories.
pub open spec fn valid_upload_id(id: Seq<char>) -> bool {
    &&& id.len() > 0
    &&& !id.contains('/')
    &&& !id.contains('\\')
    &&& id != "."@
    &&& id != ".."@
}

/// An id for a new upload: a random one, which can be a file name.
pub fn new_upload_id() -> (id: String)
    ensures
        drawn_id(id),
        random_uuid_text(id@),
        valid_upload_id(id@),
{
    let id = random_id();
    proof {
        reveal_strlit(".");
        reveal_strlit("..");
        assert forall|i: int| 0 <= i < 16 implies crate::text::hex_digits()[i] != '/'
            && crate::text::hex_digits()[i] != '\\' by {}
        assert forall|i: int| 0 <= i < id@.len() implies #[trigger] id@[i] != '/' && id@[i]
            != '\\' by {}
    }
    id
}

/// Whether the id can be a file name.
pub fn is_valid_upload_id(id: &str) -> (valid: bool)
    ensures
        valid == valid_upload_id(id@),
{
    if id.is_empty() || same_text(id, ".") || same_text(id, "..") {
        return false;
    }
    let n: usize = id.unicode_len();
    let mut i: usize = 0;
    while i < n
        invariant
            n == id@.len(),
            i <= n,
            forall|j: int| 0 <= j < i ==> #[trigger] id@[j] != '/' && id@[j] != '\\',
        decreases n - i,
    {
        let c = id.get_char(i);
        if c == '/' || c == '\\' {
            assert(id@[i as int] == c);
            return false;
        }
        i = i + 1;
    }
    true
}

/// The byte count of the session has room for `len` more bytes.
pub open spec fn part_fits(session: SessionView, len: int) -> bool {
    session.offset + len <= u64::MAX
}

/// What becomes of a part of `len` bytes that is offered at `offset` to a
/// session that is there and not too old: nothing, or the error.
pub open spec fn part_verdict(session: SessionView, offset: int, len: int) -> Option<
    StoreErrorView,
> {
    if offset != session.offset {
        Some(
            StoreErrorView::Conflict(
                "out-of-order: expected offset "@ + crate::text::decimal(session.offset as nat)
                    + ", got "@ + crate::text::decimal(offset as nat),
            ),
        )
    } else if session.max_size > 0 && session.offset + len > session.max_size {
        Some(
            StoreErrorView::Rejected(
                "upload exceeds max size "@ + crate::text::decimal(session.max_size as nat),
            ),
        )
    } else {
        None
    }
}

/// The row of a part as listings show it: its number, its MD5 digest in
/// hexadecimal, and its size.
pub open spec fn part_row(part: PartDigests) -> (u32, Seq<char>, u64) {
    (part.part_number, crate::text::hex_lower(part.md5@), part.size)
}

/// The rows of the parts.
pub open spec fn part_rows(parts: Seq<PartDigests>) -> Seq<(u32, Seq<char>, u64)> {
    parts.map_values(|p: PartDigests| part_row(p))
}

/// Rows with their texts as sequences of characters.
pub open spec fn rows_view(rows: Seq<(u32, String, u64)>) -> Seq<(u32, Seq<char>, u64)> {
    rows.map_values(|r: (u32, String, u64)| (r.0, r.1@, r.2))
}

impl UploadSessions {
    /// Begin a session under the id, in place of one that may be there.
    pub fn upload_begin(&mut self, id: String, namespace: &str, max_size: u64, now: u128)
        requires
            old(self).wf(),
        ensures
            final(self).wf(),
            final(self).timeout() == old(self).timeout(),
            final(self)@ == old(self)@.insert(
                id@,
                fresh_session(namespace@, 0, max_size as int, now as int),
            ),
            final(self)@.contains_key(id@),
            final(self)@[id@].namespace == namespace@,
            final(self)@[id@].offset == 0,
            final(self)@[id@].max_size == max_size,
            final(self)@[id@].created_at == now,
            final(self)@[id@].parts.len() == 0,
    {
        self.insert(id, namespace, 0, max_size, now);
    }

    /// Put a session that nothing was appended in yet.
    fn insert(&mut self, id: String, namespace: &str, offset: u64, max_size: u64, now: u128)
        requires
            old(self).wf(),
        ensures
            final(self).wf(),
            final(self).timeout() == old(self).timeout(),
            final(self)@ == old(self)@.insert(
                id@,
                fresh_session(namespace@, offset as int, max_size as int, now as int),
            ),
    {
        let _ = self.remove(id.as_str());
        let ghost key = id@;
        let session = UploadSession {
            id,
            namespace: namespace.to_owned(),
            offset,
            max_size,
            created_at: now,
            parts: Vec::new(),
        };
        proof {
            by_id_push(self.sessions@, session);
            assert(session@ =~= fresh_session(
                namespace@,
                offset as int,
                max_size as int,
                now as int,
            ));
        }
        self.sessions.push(session);
        assert(old(self)@.remove(key).insert(key, session@) =~= old(self)@.insert(key, session@));
    }

    /// Re-attaching to an upload came out as `offset`: where the session goes on,
    /// or the error.
    pub open spec fn resumed(
        before: Self,
        after: Self,
        id: Seq<char>,
        namespace: Seq<char>,
        max_size: int,
        staged: Option<u64>,
        now: int,
        offset: Result<u64, Refusal>,
    ) -> bool {
        &&& after.wf()
        &&& after.timeout() == before.timeout()
        &&& if !valid_upload_id(id) {
            &&& offset matches Err(r) && !r.remove_staging && r.error@ == StoreErrorView::Rejected(
                "invalid upload id "@ + debug_quoted(id),
            )
            &&& after@ == before@
        } else if staged is None {
            &&& offset matches Err(r) && !r.remove_staging && r.error@ == no_upload(id)
            &&& after@ == before@
        } else if before.stale(id, now) {
            &&& offset matches Err(r) && r.remove_staging && r.error@ == upload_expired(id)
            &&& after@ == before@.remove(id)
        } else if before@.contains_key(id) {
            &&& offset matches Ok(o) && o == before@[id].offset
            &&& after@ == before@
        } else {
            &&& offset matches Ok(o) && Some(o) == staged
            &&& after@ == before@.insert(
                id,
                fresh_session(namespace, staged->0 as int, max_size, now),
            )
        }
    }

    /// Re-attach to an upload. `staged` is the length of its staging file, where
    /// there is one. The session goes on at that length, or where it already
    /// stands.
    pub fn upload_resume(
        &mut self,
        upload_id: &str,
        namespace: &str,
        max_size: u64,
        staged: Option<u64>,
        now: u128,
    ) -> (offset: Result<u64, Refusal>)
        requires
            old(self).wf(),
        ensures
            Self::resumed(
                *old(self),
                *final(self),
                upload_id@,
                namespace@,
                max_size as int,
                staged,
                now as int,
                offset,
            ),
    {
        if !is_valid_upload_id(upload_id) {
            let text = joined("invalid upload id ", quoted(upload_id).as_str());
            return Err(Refusal { error: StoreError::Rejected(text), remove_staging: false });
        }
        let length: u64 = match staged {
            Some(length) => length,
            None => {
                return Err(Refusal { error: no_upload_error(upload_id), remove_staging: false });
            },
        };
        match self.find(upload_id) {
            Some(i) => {
                if self.is_stale(i, now) {
                    let _ = self.remove(upload_id);
                    return Err(
                        Refusal { error: upload_expired_error(upload_id), remove_staging: true },
                    );
                }
                Ok(self.sessions[i].offset)
            },
            None => {
                self.insert(upload_id.to_owned(), namespace, length, max_size, now);
                Ok(length)
            },
        }
    }

    /// Deciding on a part of `len` bytes at `offset` came out as `total`: the new
    /// total, or the error, which leaves every session as it was but for one that
    /// is too old and now gone.
    pub open spec fn part_checked(
        before: Self,
        after: Self,
        id: Seq<char>,
        offset: int,
        len: int,
        now: int,
        total: Result<u64, Refusal>,
    ) -> bool {
        &&& after.wf()
        &&& after.timeout() == before.timeout()
        &&& if !before@.contains_key(id) {
            &&& total matches Err(r) && !r.remove_staging && r.error@ == no_upload(id)
            &&& after@ == before@
        } else if before.stale(id, now) {
            &&& total matches Err(r) && r.remove_staging && r.error@ == upload_expired(id)
            &&& after@ == before@.remove(id)
        } else {
            &&& after@ == before@
            &&& match total {
                Ok(t) => {
                    &&& part_verdict(before@[id], offset, len) is None
                    &&& t == before@[id].offset + len
                },
                Err(r) => !r.remove_staging && part_verdict(before@[id], offset, len) == Some(
                    r.error@,
                ),
            }
        }
    }

    /// Recording `data` as one more part of a session made `after` of `before`.
    pub open spec fn part_committed(
        before: Self,
        after: Self,
        id: Seq<char>,
        data: Seq<u8>,
    ) -> bool {
        &&& after.wf()
        &&& after.timeout() == before.timeout()
        &&& before@[id].grown_by(after@[id], data)
        &&& after@ == before@.insert(id, after@[id])
    }

    /// Decide whether a part may be appended. On success the caller appends it
    /// to the staging file and then commits it; the result is the new total.
    pub fn upload_check_part(
        &mut self,
        upload_id: &str,
        offset: u64,
        data: &[u8],
        now: u128,
    ) -> (total: Result<u64, Refusal>)
        requires
            old(self).wf(),
            old(self)@.contains_key(upload_id@) && !old(self).stale(upload_id@, now as int)
                && offset == old(self)@[upload_id@].offset ==> part_fits(
                old(self)@[upload_id@],
                data@.len() as int,
            ),
        ensures
            Self::part_checked(
                *old(self),
                *final(self),
                upload_id@,
                offset as int,
                data@.len() as int,
                now as int,
                total,
            ),
    {
        let i: usize = match self.find(upload_id) {
            Some(i) => i,
            None => {
                return Err(Refusal { error: no_upload_error(upload_id), remove_staging: false });
            },
        };
        if self.is_stale(i, now) {
            let _ = self.remove(upload_id);
            return Err(Refusal { error: upload_expired_error(upload_id), remove_staging: true });
        }
        let expected: u64 = self.sessions[i].offset;
        let max_size: u64 = self.sessions[i].max_size;
        if offset != expected {
            let mut text = joined(
                "out-of-order: expected offset ",
                decimal_text(expected as u128).as_str(),
            );
            text.append(", got ");
            text.append(decimal_text(offset as u128).as_str());
            return Err(Refusal { error: StoreError::Conflict(text), remove_staging: false });
        }
        let new_total: u64 = expected + data.len() as u64;
        if max_size > 0 && new_total > max_size {
            let text = joined("upload exceeds max size ", decimal_text(max_size as u128).as_str());
            return Err(Refusal { error: StoreError::Rejected(text), remove_staging: false });
        }
        Ok(new_total)
    }

    /// How far the session has come, too old or not: the bytes in its staging
    /// file and the number of parts appended in it.
    pub fn upload_progress(&self, upload_id: &str) -> (progress: Option<(u64, usize)>)
        requires
            self.wf(),
        ensures
            match progress {
                Some((offset, parts)) => {
                    &&& self@.contains_key(upload_id@)
                    &&& offset == self@[upload_id@].offset
                    &&& parts == self@[upload_id@].parts.len()
                },
                None => !self@.contains_key(upload_id@),
            },
    {
        match self.find(upload_id) {
            Some(i) => Some((self.sessions[i].offset, self.sessions[i].parts.len())),
            None => None,
        }
    }

    /// Record a part that was appended to the staging file.
    pub fn upload_commit_part(&mut self, upload_id: &str, data: &[u8])
        requires
            old(self).wf(),
            old(self)@.contains_key(upload_id@),
            part_fits(old(self)@[upload_id@], data@.len() as int),
            old(self)@[upload_id@].parts.len() < u32::MAX,
            old(self)@[upload_id@].max_size > 0 ==> old(self)@[upload_id@].offset + data@.len()
                <= old(self)@[upload_id@].max_size,
        ensures
            Self::part_committed(*old(self), *final(self), upload_id@, data@),
    {
        let i: usize = match self.find(upload_id) {
            Some(i) => i,
            None => {
                return;
            },
        };
        let ghost before = self.sessions@;
        let mut session = self.sessions.remove(i);
        let part = PartDigests::of((session.parts.len() + 1) as u32, session.offset, data);
        let ghost old_view = session@;
        session.parts.push(part);
        session.offset = session.offset + data.len() as u64;
        proof {
            assert(session@ =~= old_view.appended(part));
            assert(session@.wf()) by {
                assert forall|k: int| 0 <= k < session@.parts.len() implies session@.end_of(k)
                    == if k + 1 < session@.parts.len() {
                    session@.parts[k + 1].offset as int
                } else {
                    session@.offset
                } by {
                    if k < old_view.parts.len() {
                        assert(old_view.end_of(k) == session@.end_of(k));
                    }
                }
            }
            by_id_update(before, i as int, session);
            assert(self.sessions@.insert(i as int, session) =~= before.update(i as int, session));
        }
        self.sessions.insert(i, session);
        assert(self@[upload_id@].parts.last() == part);
    }

    /// Taking a session out came out as `parts`: its parts, or the error; there is
    /// no session under the id either way.
    pub open spec fn taken(
        before: Self,
        after: Self,
        id: Seq<char>,
        now: int,
        parts: Result<Vec<PartDigests>, Refusal>,
    ) -> bool {
        &&& after.wf()
        &&& after.timeout() == before.timeout()
        &&& after@ == before@.remove(id)
        &&& match parts {
            Ok(p) => {
                &&& before@.contains_key(id)
                &&& !before.stale(id, now)
                &&& p@ == before@[id].parts
            },
            Err(r) => if before@.contains_key(id) {
                &&& before.stale(id, now)
                &&& r.remove_staging
                &&& r.error@ == upload_expired(id)
            } else {
                &&& !r.remove_staging
                &&& r.error@ == no_upload(id)
            },
        }
    }

    /// Take the session out for completion: the parts that were appended in it.
    /// The id is invalid from here on.
    pub fn upload_take(&mut self, upload_id: &str, now: u128) -> (parts: Result<
        Vec<PartDigests>,
        Refusal,
    >)
        requires
            old(self).wf(),
        ensures
            Self::taken(*old(self), *final(self), upload_id@, now as int, parts),
    {
        match self.remove(upload_id) {
            None => Err(Refusal { error: no_upload_error(upload_id), remove_staging: false }),
            Some(session) => {
                let stale = match self.timeout_secs {
                    Some(secs) => older_than(&session, secs, now),
                    None => false,
                };
                if stale {
                    Err(Refusal { error: upload_expired_error(upload_id), remove_staging: true })
                } else {
                    Ok(session.parts)
                }
            },
        }
    }

    /// Drop the session. True where there was one, whose staging file is to go.
    pub fn upload_abort(&mut self, upload_id: &str) -> (dropped: bool)
        requires
            old(self).wf(),
        ensures
            final(self).wf(),
            final(self).timeout() == old(self).timeout(),
            final(self)@ == old(self)@.remove(upload_id@),
            dropped == old(self)@.contains_key(upload_id@),
    {
        self.remove(upload_id).is_some()
    }

    /// Find the session, dropping it where it is too old.
    fn access(&mut self, upload_id: &str, now: u128) -> (at: Lookup<usize>)
        requires
            old(self).wf(),
        ensures
            final(self).wf(),
            final(self).timeout() == old(self).timeout(),
            match at {
                Lookup::Found(i) => {
                    &&& old(self)@.contains_key(upload_id@)
                    &&& !old(self).stale(upload_id@, now as int)
                    &&& final(self)@ == old(self)@
                    &&& i < final(self).sessions@.len()
                    &&& final(self).sessions@[i as int]@ == old(self)@[upload_id@]
                },
                Lookup::Missing => {
                    &&& !old(self)@.contains_key(upload_id@)
                    &&& final(self)@ == old(self)@
                },
                Lookup::Expired => {
                    &&& old(self).stale(upload_id@, now as int)
                    &&& final(self)@ == old(self)@.remove(upload_id@)
                },
            },
    {
        match self.find(upload_id) {
            None => Lookup::Missing,
            Some(i) => {
                if self.is_stale(i, now) {
                    let _ = self.remove(upload_id);
                    Lookup::Expired
                } else {
                    Lookup::Found(i)
                }
            },
        }
    }

    /// The session is granted, missing, or too old and now gone.
    pub open spec fn accessed<T>(
        before: Self,
        after: Self,
        id: Seq<char>,
        now: int,
        found: Lookup<T>,
    ) -> bool {
        &&& after.wf()
        &&& after.timeout() == before.timeout()
        &&& (found is Found) == (before@.contains_key(id) && !before.stale(id, now))
        &&& (found is Missing) == !before@.contains_key(id)
        &&& (found is Expired) == before.stale(id, now)
        &&& after@ == if before.stale(id, now) {
            before@.remove(id)
        } else {
            before@
        }
    }

    /// Bytes received so far for an upload.
    pub fn upload_bytes_received(&mut self, upload_id: &str, now: u128) -> (bytes: Lookup<u64>)
        requires
            old(self).wf(),
        ensures
            Self::accessed(*old(self), *final(self), upload_id@, now as int, bytes),
            bytes matches Lookup::Found(n) ==> n == old(self)@[upload_id@].offset,
    {
        match self.access(upload_id, now) {
            Lookup::Found(i) => Lookup::Found(self.sessions[i].offset),
            Lookup::Missing => Lookup::Missing,
            Lookup::Expired => Lookup::Expired,
        }
    }

    /// Namespace associated with an upload.
    pub fn upload_namespace(&mut self, upload_id: &str, now: u128) -> (namespace: Lookup<String>)
        requires
            old(self).wf(),
        ensures
            Self::accessed(*old(self), *final(self), upload_id@, now as int, namespace),
            namespace matches Lookup::Found(ns) ==> ns@ == old(self)@[upload_id@].namespace,
    {
        match self.access(upload_id, now) {
            Lookup::Found(i) => Lookup::Found(self.sessions[i].namespace.clone()),
            Lookup::Missing => Lookup::Missing,
            Lookup::Expired => Lookup::Expired,
        }
    }

    /// Per-part metadata of an upload, a row for each part.
    pub fn upload_part_info(&mut self, upload_id: &str, now: u128) -> (rows: Lookup<
        Vec<(u32, String, u64)>,
    >)
        requires
            old(self).wf(),
        ensures
            Self::accessed(*old(self), *final(self), upload_id@, now as int, rows),
            rows matches Lookup::Found(r) ==> rows_view(r@) == part_rows(
                old(self)@[upload_id@].parts,
            ),
    {
        match self.access(upload_id, now) {
            Lookup::Found(i) => Lookup::Found(part_info_rows(self.sessions[i].parts.as_slice())),
            Lookup::Missing => Lookup::Missing,
            Lookup::Expired => Lookup::Expired,
        }
    }

    /// Drop every session older than the timeout. Returns their ids, whose
    /// staging files are to go.
    pub fn upload_evict_expired(&mut self, timeout_secs: u64, now: u128) -> (evicted: Vec<String>)
        requires
            old(self).wf(),
        ensures
            final(self).wf(),
            final(self).timeout() == old(self).timeout(),
            forall|id: Seq<char>| #[trigger]
                final(self)@.contains_key(id) <==> old(self)@.contains_key(id) && !old(
                    self,
                )@[id].expired(timeout_secs as int, now as int),
            forall|id: Seq<char>| #[trigger]
                final(self)@.contains_key(id) ==> final(self)@[id] == old(self)@[id],
            crate::text::texts(evicted@).no_duplicates(),
            forall|id: Seq<char>| #[trigger]
                crate::text::texts(evicted@).contains(id) <==> old(self)@.contains_key(id) && old(
                    self,
                )@[id].expired(timeout_secs as int, now as int),
    {
        let mut evicted: Vec<String> = Vec::new();
        let mut i: usize = 0;
        let ghost start = self@;
        let ghost timeout = self.timeout();
        assert(crate::text::texts(evicted@) =~= Seq::<Seq<char>>::empty());
        while i < self.sessions.len()
            invariant
                self.wf(),
                self.timeout() == timeout,
                i <= self.sessions@.len(),
                forall|j: int|
                    0 <= j < i ==> !(#[trigger] self.sessions@[j])@.expired(
                        timeout_secs as int,
                        now as int,
                    ),
                forall|id: Seq<char>| #[trigger]
                    self@.contains_key(id) ==> start.contains_key(id) && self@[id] == start[id],
                forall|id: Seq<char>| #[trigger]
                    start.contains_key(id) ==> self@.contains_key(id) || start[id].expired(
                        timeout_secs as int,
                        now as int,
                    ),
                crate::text::texts(evicted@).no_duplicates(),
                forall|id: Seq<char>| #[trigger]
                    crate::text::texts(evicted@).contains(id) <==> start.contains_key(id)
                        && !self@.contains_key(id),
            decreases self.sessions@.len() - i,
        {
            if older_than(&self.sessions[i], timeout_secs, now) {
                let ghost before = self@;
                let ghost gone = self.sessions@[i as int].id@;
                proof {
                    by_id_at(self.sessions@, i as int);
                    by_id_remove(self.sessions@, i as int);
                }
                let session = self.sessions.remove(i);
                let ghost ids = crate::text::texts(evicted@);
                evicted.push(session.id);
                proof {
                    assert(self@ == before.remove(gone));
                    assert(crate::text::texts(evicted@) =~= ids.push(gone));
                    assert(!ids.contains(gone));
                    assert forall|id: Seq<char>| #[trigger]
                        crate::text::texts(evicted@).contains(id) <==> start.contains_key(id)
                            && !self@.contains_key(id) by {
                        if ids.contains(id) {
                            let k = choose|k: int| 0 <= k < ids.len() && ids[k] == id;
                            assert(ids.push(gone)[k] == id);
                        }
                        if id == gone {
                            assert(ids.push(gone)[ids.len() as int] == gone);
                        }
                        if ids.push(gone).contains(id) && id != gone {
                            let k = choose|k: int|
                                0 <= k < ids.push(gone).len() && ids.push(gone)[k] == id;
                            assert(ids[k] == id);
                        }
                    }
                }
            } else {
                i = i + 1;
            }
        }
        assert forall|id: Seq<char>| #[trigger] self@.contains_key(id) implies !start[id].expired(
            timeout_secs as int,
            now as int,
        ) by {
            let k = choose|k: int|
                0 <= k < self.sessions@.len() && #[trigger] self.sessions@[k].id@ == id;
            by_id_at(self.sessions@, k);
        }
        evicted
    }
}

/// The rows of the parts.
fn part_info_rows(parts: &[PartDigests]) -> (rows: Vec<(u32, String, u64)>)
    ensures
        rows_view(rows@) == part_rows(parts@),
{
    let mut rows: Vec<(u32, String, u64)> = Vec::new();
    let mut i: usize = 0;
    while i < parts.len()
        invariant
            i <= parts@.len(),
            rows@.len() == i,
            forall|j: int|
                0 <= j < i ==> (#[trigger] rows@[j]).0 == part_row(parts@[j]).0 && rows@[j].1@
                    == part_row(parts@[j]).1 && rows@[j].2 == part_row(parts@[j]).2,
        decreases parts@.len() - i,
    {
        let md5: [u8; 16] = parts[i].md5;
        rows.push((parts[i].part_number, hex_text(md5.as_slice()), parts[i].size));
        i = i + 1;
    }
    assert(rows_view(rows@) =~= part_rows(parts@));
    rows
}

/// The bytes of all parts together.
pub open spec fn parts_size(parts: Seq<PartDigests>) -> int
    decreases parts.len(),
{
    if parts.len() == 0 {
        0
    } else {
        parts_size(parts.drop_last()) + parts.last().size
    }
}

/// The first parts reach from the first offset to that of the next part.
proof fn parts_reach(session: SessionView, n: int)
    requires
        session.wf(),
        0 < session.parts.len(),
        0 <= n <= session.parts.len(),
    ensures
        session.parts[0].offset + parts_size(session.parts.take(n)) == if n < session.parts.len() {
            session.parts[n].offset as int
        } else {
            session.offset
        },
    decreases n,
{
    if n > 0 {
        parts_reach(session, n - 1);
        assert(session.parts.take(n).drop_last() =~= session.parts.take(n - 1));
        assert(session.end_of(n - 1) == session.parts[n - 1].offset + session.parts[n - 1].size);
    }
}

/// The parts of an upload are numbered from one, follow each other without gaps
/// or overlaps, and reach from where the session began to the end of the staging
/// file.
pub proof fn law_parts_cover_upload(sessions: UploadSessions, id: Seq<char>)
    requires
        sessions.wf(),
        sessions@.contains_key(id),
    ensures
        forall|i: int|
            0 <= i < sessions@[id].parts.len() ==> (#[trigger] sessions@[id].parts[i]).part_number
                == i + 1,
        forall|i: int, j: int|
            0 <= i && j == i + 1 && j < sessions@[id].parts.len() ==> (
            #[trigger] sessions@[id].parts[j]).offset == (#[trigger] sessions@[id].parts[i]).offset
                + sessions@[id].parts[i].size,
        sessions@[id].parts.len() > 0 ==> sessions@[id].parts[0].offset + parts_size(
            sessions@[id].parts,
        ) == sessions@[id].offset,
        sessions@[id].max_size > 0 && sessions@[id].parts.len() > 0 ==> sessions@[id].offset
            <= sessions@[id].max_size,
{
    let session = sessions@[id];
    assert(session.wf());
    assert forall|i: int, j: int|
        0 <= i && j == i + 1 && j < session.parts.len() implies (#[trigger] session.parts[j]).offset
        == (#[trigger] session.parts[i]).offset + session.parts[i].size by {
        assert(session.end_of(i) == session.parts[j].offset);
    }
    if session.parts.len() > 0 {
        parts_reach(session, session.parts.len() as int);
        assert(session.parts.take(session.parts.len() as int) =~= session.parts);
    }
}

/// Putting a part into a session that is there and not too old: one at another
/// offset is a conflict and one past the limit is rejected, either of which
/// leaves everything as it was; any other makes the session longer by the part,
/// in step with the staging file, adds its row behind the others, and touches no
/// other session.
pub proof fn law_put_part(
    before: UploadSessions,
    checked: UploadSessions,
    after: UploadSessions,
    id: Seq<char>,
    offset: int,
    data: Seq<u8>,
    now: int,
    total: Result<u64, Refusal>,
    staged: Seq<u8>,
)
    requires
        before.wf(),
        before@.contains_key(id),
        !before.stale(id, now),
        staged.len() == before@[id].offset,
        UploadSessions::part_checked(
            before,
            checked,
            id,
            offset,
            data.len() as int,
            now,
            total,
        ),
        total is Ok ==> UploadSessions::part_committed(checked, after, id, data),
    ensures
        ({
            let session = before@[id];
            let past_limit = session.max_size > 0 && session.offset + data.len()
                > session.max_size;
            if offset != session.offset {
                &&& total matches Err(r) && r.error@ is Conflict && !r.remove_staging
                &&& checked@ == before@
            } else if past_limit {
                &&& total matches Err(r) && r.error@ is Rejected && !r.remove_staging
                &&& checked@ == before@
            } else {
                &&& total matches Ok(t) && t == session.offset + data.len()
                &&& after.wf()
                &&& after.timeout() == before.timeout()
                &&& after@[id].offset == session.offset + data.len()
                &&& after@[id].offset == (staged + data).len()
                &&& part_rows(after@[id].parts) == part_rows(session.parts).push(
                    (
                        (session.parts.len() + 1) as u32,
                        crate::text::hex_lower(crate::parts::md5_hash(data)),
                        data.len() as u64,
                    ),
                )
                &&& after@ == before@.insert(id, after@[id])
            }
        }),
{
    if total is Ok {
        let session = before@[id];
        let part = after@[id].parts.last();
        assert(part_rows(after@[id].parts) =~= part_rows(session.parts).push(part_row(part)));
    }
}

/// Once a session was taken out for completion and its staging file is gone, as
/// it is behind a completion and behind a refused one, nothing is known of the
/// upload and it cannot be resumed.
pub proof fn law_completed_upload_is_gone(
    before: UploadSessions,
    taken: UploadSessions,
    id: Seq<char>,
    now: int,
    parts: Result<Vec<PartDigests>, Refusal>,
    asked: UploadSessions,
    bytes: Lookup<u64>,
    resumed: UploadSessions,
    namespace: Seq<char>,
    max_size: int,
    offset: Result<u64, Refusal>,
    later: int,
)
    requires
        UploadSessions::taken(before, taken, id, now, parts),
        UploadSessions::accessed(taken, asked, id, later, bytes),
        UploadSessions::resumed(taken, resumed, id, namespace, max_size, None, later, offset),
        valid_upload_id(id),
    ensures
        bytes is Missing,
        offset matches Err(r) && r.error@ == no_upload(id),
        asked@ == taken@,
        resumed@ == taken@,
{
}

/// The states of a session in which the pieces were recorded as its parts one
/// after the other, from the state that it began in.
pub open spec fn recorded(states: Seq<SessionView>, pieces: Seq<Seq<u8>>) -> bool {
    &&& states.len() == pieces.len() + 1
    &&& states[0].parts.len() == 0
    &&& forall|i: int|
        0 <= i < pieces.len() ==> states[i].grown_by(states[i + 1], #[trigger] pieces[i])
}

/// The parts of a session digest the pieces that were recorded in it.
pub proof fn law_parts_digest_pieces(states: Seq<SessionView>, pieces: Seq<Seq<u8>>)
    requires
        recorded(states, pieces),
    ensures
        crate::parts::digests_of(states.last().parts, pieces),
    decreases pieces.len(),
{
    if pieces.len() > 0 {
        let n = pieces.len() - 1;
        let earlier = states.drop_last();
        assert(recorded(earlier, pieces.drop_last())) by {
            assert forall|i: int| 0 <= i < pieces.drop_last().len() implies earlier[i].grown_by(
                earlier[i + 1],
                #[trigger] pieces.drop_last()[i],
            ) by {
                assert(states[i].grown_by(states[i + 1], pieces[i]));
            }
        }
        law_parts_digest_pieces(earlier, pieces.drop_last());
        assert(states[n].grown_by(states[n + 1], pieces[n]));
        law_parts_digest_content(
            earlier.last(),
            states.last().parts.last(),
            pieces.drop_last(),
            pieces.last(),
        );
        assert(pieces.drop_last().push(pieces.last()) =~= pieces);
    }
}

/// Parts that digest the pieces appended so far digest them with one more piece,
/// once it is committed; so the checksums of a completed upload are those of its
/// content.
pub proof fn law_parts_digest_content(
    before: SessionView,
    part: PartDigests,
    pieces: Seq<Seq<u8>>,
    data: Seq<u8>,
)
    requires
        crate::parts::digests_of(before.parts, pieces),
        part.digests(data),
    ensures
        crate::parts::digests_of(before.appended(part).parts, pieces.push(data)),
        crate::parts::in_a_row(pieces.push(data)) == crate::parts::in_a_row(pieces) + data,
{
    let after = before.appended(part).parts;
    assert forall|i: int| 0 <= i < after.len() implies (#[trigger] after[i]).digests(
        pieces.push(data)[i],
    ) by {
        if i < before.parts.len() {
            assert(before.parts[i].digests(pieces[i]));
        }
    }
    assert(pieces.push(data).drop_last() =~= pieces);
}

/// A session is too old once more time has passed since it began than the timeout,
/// counted in seconds of a thousand million nanoseconds; without a timeout none is.
pub proof fn law_session_age(sessions: UploadSessions, id: Seq<char>, now: int)
    requires
        sessions@.contains_key(id),
    ensures
        sessions.timeout() is None ==> !sessions.stale(id, now),
        sessions.timeout() matches Some(secs) ==> (sessions.stale(id, now) <==> now
            > sessions@[id].created_at + secs * 1_000_000_000),
        forall|secs: int| #[trigger]
            sessions@[id].expired(secs, now) <==> now > sessions@[id].created_at + secs
                * 1_000_000_000,
{
}

/// There is no session too old where there is no session.
pub proof fn law_missing_session_is_not_stale(sessions: UploadSessions, id: Seq<char>, now: int)
    requires
        !sessions@.contains_key(id),
    ensures
        !sessions.stale(id, now),
{
}

/// A new session is in its namespace, at the offset and with the limit that it was
/// given, begins now and has no parts.
pub proof fn law_fresh_session(namespace: Seq<char>, offset: int, max_size: int, now: int)
    ensures
        fresh_session(namespace, offset, max_size, now).namespace == namespace,
        fresh_session(namespace, offset, max_size, now).offset == offset,
        fresh_session(namespace, offset, max_size, now).max_size == max_size,
        fresh_session(namespace, offset, max_size, now).created_at == now,
        fresh_session(namespace, offset, max_size, now).parts.len() == 0,
{
}

/// An upload whose staging file survived while its session did not is resumed at the
/// length of the file, in the namespace and under the limit that are passed, from now
/// on and without parts. A part put behind it keeps to that limit: it is rejected
/// exactly where the limit is positive and it would end past it.
pub proof fn law_resumed_session_keeps_limit(
    before: UploadSessions,
    after: UploadSessions,
    id: Seq<char>,
    namespace: Seq<char>,
    max_size: int,
    staged: u64,
    now: int,
    offset: Result<u64, Refusal>,
    checked: UploadSessions,
    len: int,
    later: int,
    total: Result<u64, Refusal>,
)
    requires
        valid_upload_id(id),
        !before@.contains_key(id),
        UploadSessions::resumed(
            before,
            after,
            id,
            namespace,
            max_size,
            Some(staged),
            now,
            offset,
        ),
        UploadSessions::part_checked(after, checked, id, staged as int, len, later, total),
        !after.stale(id, later),
    ensures
        offset matches Ok(o) && o == staged,
        after@.contains_key(id),
        after@[id].namespace == namespace,
        after@[id].offset == staged,
        after@[id].max_size == max_size,
        after@[id].created_at == now,
        after@[id].parts.len() == 0,
        forall|other: Seq<char>|
            other != id ==> (#[trigger] after@.contains_key(other) <==> before@.contains_key(other))
                && (after@.contains_key(other) ==> after@[other] == before@[other]),
        max_size > 0 && staged + len > max_size ==> (total matches Err(r) && r.error is Rejected),
        max_size <= 0 || staged + len <= max_size ==> (total matches Ok(t) && t == staged + len),
{
}

/// Resuming an upload whose session is there changes nothing and goes on where the
/// session stands, whatever namespace and limit are passed.
pub proof fn law_resume_finds_session(
    before: UploadSessions,
    after: UploadSessions,
    id: Seq<char>,
    namespace: Seq<char>,
    max_size: int,
    staged: u64,
    now: int,
    offset: Result<u64, Refusal>,
)
    requires
        valid_upload_id(id),
        before@.contains_key(id),
        !before.stale(id, now),
        UploadSessions::resumed(
            before,
            after,
            id,
            namespace,
            max_size,
            Some(staged),
            now,
            offset,
        ),
    ensures
        offset matches Ok(o) && o == before@[id].offset,
        after@ == before@,
        after.timeout() == before.timeout(),
{
}

/// A resume is refused exactly for an id that cannot be a file name, which is
/// rejected, for an upload without a staging file, and for a session that is too old,
/// neither of which is found; only the last drops a session and its staging file.
pub proof fn law_resume_refusals(
    before: UploadSessions,
    after: UploadSessions,
    id: Seq<char>,
    namespace: Seq<char>,
    max_size: int,
    staged: Option<u64>,
    now: int,
    offset: Result<u64, Refusal>,
)
    requires
        UploadSessions::resumed(
            before,
            after,
            id,
            namespace,
            max_size,
            staged,
            now,
            offset,
        ),
    ensures
        offset is Err <==> !valid_upload_id(id) || staged is None || before.stale(id, now),
        offset matches Err(r) ==> {
            &&& !valid_upload_id(id) ==> !r.remove_staging && (
            r.error matches StoreError::Rejected(text) && text@ == "invalid upload id "@
                + debug_quoted(id))
            &&& valid_upload_id(id) && staged is None ==> !r.remove_staging && (
            r.error matches StoreError::NotFound(text) && text@ == "upload "@ + id)
            &&& valid_upload_id(id) && staged is Some ==> r.remove_staging && (
            r.error matches StoreError::NotFound(text) && text@ == "upload "@ + id + " expired"@)
            &&& r.remove_staging ==> after@ == before@.remove(id)
            &&& !r.remove_staging ==> after@ == before@
        },
{
}

/// What a refused part is told: at another offset than the one reached, both offsets;
/// past the limit, the limit; without a session, or with one that is too old, the id.
/// Only a session that is too old is dropped, with its staging file.
pub proof fn law_part_refusals(
    before: UploadSessions,
    after: UploadSessions,
    id: Seq<char>,
    offset: int,
    len: int,
    now: int,
    total: Result<u64, Refusal>,
)
    requires
        UploadSessions::part_checked(before, after, id, offset, len, now, total),
    ensures
        after.timeout() == before.timeout(),
        !before@.contains_key(id) ==> (total matches Err(r) && !r.remove_staging && (
        r.error matches StoreError::NotFound(text) && text@ == "upload "@ + id)),
        before.stale(id, now) ==> (total matches Err(r) && r.remove_staging && (
        r.error matches StoreError::NotFound(text) && text@ == "upload "@ + id + " expired"@)),
        before.stale(id, now) ==> after@ == before@.remove(id),
        !before.stale(id, now) ==> after@ == before@,
        before@.contains_key(id) && !before.stale(id, now) ==> {
            let session = before@[id];
            &&& offset != session.offset ==> (total matches Err(r) && (
            r.error matches StoreError::Conflict(text) && text@
                == "out-of-order: expected offset "@ + crate::text::decimal(session.offset as nat)
                + ", got "@ + crate::text::decimal(offset as nat)))
            &&& offset == session.offset && session.max_size > 0 && offset + len
                > session.max_size ==> (total matches Err(r) && (
            r.error matches StoreError::Rejected(text) && text@ == "upload exceeds max size "@
                + crate::text::decimal(session.max_size as nat)))
            &&& offset == session.offset && (session.max_size <= 0 || offset + len
                <= session.max_size) ==> (total matches Ok(t) && t == offset + len)
        },
{
}

/// Recording a part leaves the session its namespace, its limit and its beginning and
/// the parts that it had, and adds one behind them: numbered by their count, at the
/// offset reached, with the length and the digests of its own data. The offset goes on
/// by its length, and no other session changes.
pub proof fn law_recorded_part(
    before: UploadSessions,
    after: UploadSessions,
    id: Seq<char>,
    data: Seq<u8>,
)
    requires
        before@.contains_key(id),
        UploadSessions::part_committed(before, after, id, data),
    ensures
        ({
            let old_session = before@[id];
            let new_session = after@[id];
            let n = old_session.parts.len() as int;
            let part = new_session.parts[n];
            &&& new_session.namespace == old_session.namespace
            &&& new_session.max_size == old_session.max_size
            &&& new_session.created_at == old_session.created_at
            &&& new_session.offset == old_session.offset + data.len()
            &&& new_session.parts.len() == n + 1
            &&& new_session.parts.take(n) == old_session.parts
            &&& part.part_number == n + 1
            &&& part.offset == old_session.offset
            &&& part.size == data.len()
            &&& part.md5@ == crate::parts::md5_hash(data)
            &&& part.crc32c == crate::parts::crc_of(32, data)
            &&& part.crc64nvme == crate::parts::crc_of(64, data)
        }),
        after.timeout() == before.timeout(),
        forall|other: Seq<char>|
            other != id ==> (#[trigger] after@.contains_key(other) <==> before@.contains_key(other))
                && (after@.contains_key(other) ==> after@[other] == before@[other]),
        after@.contains_key(id),
{
    let n = before@[id].parts.len() as int;
    assert(after@[id].parts.take(n) =~= before@[id].parts);
}

/// Taking a session out for completion gives exactly its parts where it is there and
/// not too old, tells a missing one from one that is too old, and leaves every other
/// session alone.
pub proof fn law_taken_session(
    before: UploadSessions,
    after: UploadSessions,
    id: Seq<char>,
    now: int,
    parts: Result<Vec<PartDigests>, Refusal>,
)
    requires
        UploadSessions::taken(before, after, id, now, parts),
    ensures
        parts is Ok <==> before@.contains_key(id) && !before.stale(id, now),
        parts matches Ok(p) ==> p@ == before@[id].parts,
        parts matches Err(r) ==> {
            &&& r.remove_staging <==> before@.contains_key(id)
            &&& before@.contains_key(id) ==> (r.error matches StoreError::NotFound(text) && text@
                == "upload "@ + id + " expired"@)
            &&& !before@.contains_key(id) ==> (r.error matches StoreError::NotFound(text) && text@
                == "upload "@ + id)
        },
        !after@.contains_key(id),
        after.timeout() == before.timeout(),
        forall|other: Seq<char>|
            other != id ==> (#[trigger] after@.contains_key(other) <==> before@.contains_key(other))
                && (after@.contains_key(other) ==> after@[other] == before@[other]),
{
}

/// Asking for a session finds it exactly where it is there and not too old; asking for
/// one that is too old drops it, and asking changes nothing else.
pub proof fn law_asking_for_session(
    before: UploadSessions,
    after: UploadSessions,
    id: Seq<char>,
    now: int,
    found: Lookup<u64>,
)
    requires
        UploadSessions::accessed(before, after, id, now, found),
    ensures
        found is Missing <==> !before@.contains_key(id),
        found is Expired <==> before.stale(id, now),
        found is Found <==> before@.contains_key(id) && !before.stale(id, now),
        found is Expired ==> !after@.contains_key(id),
        found is Found || found is Missing ==> after@ == before@,
        after.timeout() == before.timeout(),
        forall|other: Seq<char>|
            other != id ==> (#[trigger] after@.contains_key(other) <==> before@.contains_key(other))
                && (after@.contains_key(other) ==> after@[other] == before@[other]),
{
}

/// The listing of parts has a row for each, in their order, with its number, its MD5
/// digest in 32 hexadecimal digits and nothing else, and its size.
pub proof fn law_part_rows_tell_the_parts(parts: Seq<PartDigests>, i: int)
    requires
        0 <= i < parts.len(),
    ensures
        part_rows(parts).len() == parts.len(),
        part_rows(parts)[i].0 == parts[i].part_number,
        part_rows(parts)[i].1.len() == 32,
        crate::text::hex_reads_as(part_rows(parts)[i].1, parts[i].md5@),
        part_rows(parts)[i].2 == parts[i].size,
{
    crate::text::law_hex_reads_back(parts[i].md5@);
}

/// The rows that are returned are those by their views.
pub proof fn law_rows_by_view(rows: Seq<(u32, String, u64)>, i: int)
    requires
        0 <= i < rows.len(),
    ensures
        rows_view(rows).len() == rows.len(),
        rows_view(rows)[i].0 == rows[i].0,
        rows_view(rows)[i].1 == rows[i].1@,
        rows_view(rows)[i].2 == rows[i].2,
{
}

/// An id can be a file name exactly where it has a character, none of them is a path
/// separator of either kind, and it is neither of the names of directories.
pub proof fn law_upload_id_is_file_name(id: &str, valid: bool)
    requires
        call_ensures(is_valid_upload_id, (id,), valid),
    ensures
        id@.len() == 0 ==> !valid,
        (exists|i: int| 0 <= i < id@.len() && (#[trigger] id@[i] == '/' || id@[i] == '\\'))
            ==> !valid,
        id@ == seq!['.'] || id@ == seq!['.', '.'] ==> !valid,
        id@.len() > 0 && id@ != seq!['.'] && id@ != seq!['.', '.'] && (forall|i: int|
            0 <= i < id@.len() ==> #[trigger] id@[i] != '/' && id@[i] != '\\') ==> valid,
{
    reveal_strlit(".");
    reveal_strlit("..");
    assert("."@ =~= seq!['.']);
    assert(".."@ =~= seq!['.', '.']);
    if exists|i: int| 0 <= i < id@.len() && (#[trigger] id@[i] == '/' || id@[i] == '\\') {
        let i = choose|i: int|
            0 <= i < id@.len() && (#[trigger] id@[i] == '/' || id@[i] == '\\');
        assert(id@.contains(id@[i]));
    }
}

/// A new id is what was drawn: 36 characters with hyphens at their places, lower-case
/// hexadecimal digits at the others, and the version and variant of random ids.
pub proof fn law_new_upload_id(id: String, i: int)
    requires
        call_ensures(new_upload_id, (), id),
        0 <= i < 36,
    ensures
        drawn_id(id),
        id@.len() == 36,
        i == 8 || i == 13 || i == 18 || i == 23 <==> id@[i] == '-',
        id@[i] != '-' ==> '0' as int <= id@[i] as int <= '9' as int || 'a' as int <= id@[i] as int
            <= 'f' as int,
        id@[14] == '4',
        id@[19] == '8' || id@[19] == '9' || id@[19] == 'a' || id@[19] == 'b',
{
    if !(i == 8 || i == 13 || i == 18 || i == 23) {
        assert(crate::text::hex_digits().contains(id@[i]));
        let d = choose|d: int| 0 <= d < 16 && crate::text::hex_digits()[d] == id@[i];
        assert(crate::text::hex_digits()[d] == id@[i]);
    }
}

/// A session that is begun is in the namespace and under the limit that were passed,
/// begins now, is empty and takes the place of one with its id; every other session
/// stays as it was.
pub proof fn law_begun_session(
    sessions: &mut UploadSessions,
    id: String,
    namespace: &str,
    max_size: u64,
    now: u128,
    out: (),
    other: Seq<char>,
)
    requires
        call_ensures(UploadSessions::upload_begin, (sessions, id, namespace, max_size, now), out),
    ensures
        final(sessions)@.contains_key(id@),
        final(sessions)@[id@].namespace == namespace@,
        final(sessions)@[id@].offset == 0,
        final(sessions)@[id@].max_size == max_size,
        final(sessions)@[id@].created_at == now,
        final(sessions)@[id@].parts.len() == 0,
        final(sessions).timeout() == old(sessions).timeout(),
        other != id@ ==> (final(sessions)@.contains_key(other) <==> old(sessions)@.contains_key(
            other,
        )),
        other != id@ && old(sessions)@.contains_key(other) ==> final(sessions)@[other]
            == old(sessions)@[other],
{
}

/// An upload that is resumed without a session, and then given a part where its
/// staging file ends, keeps to the limit that it was resumed with: a part that ends
/// past a positive limit is rejected with that limit, any other is granted. The session
/// is in the namespace that was passed.
pub proof fn law_resumed_upload_keeps_limit(
    first: &mut UploadSessions,
    second: &mut UploadSessions,
    id: &str,
    namespace: &str,
    max_size: u64,
    staged: u64,
    now: u128,
    offset: Result<u64, Refusal>,
    data: &[u8],
    later: u128,
    total: Result<u64, Refusal>,
)
    requires
        call_ensures(
            UploadSessions::upload_resume,
            (first, id, namespace, max_size, Some(staged), now),
            offset,
        ),
        *old(second) == *final(first),
        call_ensures(UploadSessions::upload_check_part, (second, id, staged, data, later), total),
        valid_upload_id(id@),
        !old(first)@.contains_key(id@),
        old(first).timeout() is None,
    ensures
        offset matches Ok(o) && o == staged,
        final(first)@[id@].namespace == namespace@,
        final(first)@[id@].max_size == max_size,
        max_size > 0 && staged + data@.len() > max_size ==> (total matches Err(r) && (
        r.error matches StoreError::Rejected(text) && text@ == "upload exceeds max size "@
            + crate::text::decimal(max_size as nat))),
        max_size == 0 || staged + data@.len() <= max_size ==> (total matches Ok(t) && t == staged
            + data@.len()),
{
}

/// Resuming comes out as it is told: the sessions before and after it and what it
/// returns are those of a resume of this upload.
pub proof fn law_resume_call(
    sessions: &mut UploadSessions,
    id: &str,
    namespace: &str,
    max_size: u64,
    staged: Option<u64>,
    now: u128,
    offset: Result<u64, Refusal>,
)
    requires
        call_ensures(
            UploadSessions::upload_resume,
            (sessions, id, namespace, max_size, staged, now),
            offset,
        ),
    ensures
        UploadSessions::resumed(
            *old(sessions),
            *final(sessions),
            id@,
            namespace@,
            max_size as int,
            staged,
            now as int,
            offset,
        ),
        offset is Err <==> !valid_upload_id(id@) || staged is None || old(sessions).stale(
            id@,
            now as int,
        ),
        offset matches Ok(o) ==> o == (if old(sessions)@.contains_key(id@) {
            old(sessions)@[id@].offset
        } else {
            staged->0 as int
        }),
        offset matches Ok(_) && old(sessions)@.contains_key(id@) ==> final(sessions)@
            == old(sessions)@,
{
}

/// A part is granted exactly where its session is there and not too old, it begins where
/// the session stands and it keeps to the limit; the total granted counts all its bytes.
/// Whether it is granted or not, no session is lost but one that is too old.
pub proof fn law_check_part_call(
    sessions: &mut UploadSessions,
    id: &str,
    offset: u64,
    data: &[u8],
    now: u128,
    total: Result<u64, Refusal>,
)
    requires
        call_ensures(UploadSessions::upload_check_part, (sessions, id, offset, data, now), total),
    ensures
        total is Ok <==> {
            let session = old(sessions)@[id@];
            &&& old(sessions)@.contains_key(id@)
            &&& !old(sessions).stale(id@, now as int)
            &&& offset == session.offset
            &&& session.max_size > 0 ==> session.offset + data@.len() <= session.max_size
        },
        total matches Ok(t) ==> t == offset + data@.len(),
        !old(sessions).stale(id@, now as int) ==> final(sessions)@ == old(sessions)@,
        UploadSessions::part_checked(
            *old(sessions),
            *final(sessions),
            id@,
            offset as int,
            data@.len() as int,
            now as int,
            total,
        ),
{
}

/// Recording a part adds it behind the others, numbered and placed as it comes, with
/// the digests of its own data, and moves the session on by its length.
pub proof fn law_commit_part_call(
    sessions: &mut UploadSessions,
    id: &str,
    data: &[u8],
    out: (),
)
    requires
        call_ensures(UploadSessions::upload_commit_part, (sessions, id, data), out),
        old(sessions)@.contains_key(id@),
    ensures
        ({
            let before = old(sessions)@[id@];
            let after = final(sessions)@[id@];
            let n = before.parts.len() as int;
            &&& after.offset == before.offset + data@.len()
            &&& after.parts.len() == n + 1
            &&& after.parts.take(n) == before.parts
            &&& after.parts[n].part_number == n + 1
            &&& after.parts[n].offset == before.offset
            &&& after.parts[n].size == data@.len()
            &&& after.parts[n].md5@ == crate::parts::md5_hash(data@)
            &&& after.parts[n].crc32c == crate::parts::crc_of(32, data@)
            &&& after.parts[n].crc64nvme == crate::parts::crc_of(64, data@)
            &&& after.namespace == before.namespace
            &&& after.max_size == before.max_size
            &&& after.created_at == before.created_at
        }),
        UploadSessions::part_committed(*old(sessions), *final(sessions), id@, data@),
{
    law_recorded_part(*old(sessions), *final(sessions), id@, data@);
}

/// Taking a session out gives its parts and leaves no session under its id; it fails
/// exactly where there is none or it is too old.
pub proof fn law_take_call(
    sessions: &mut UploadSessions,
    id: &str,
    now: u128,
    parts: Result<Vec<PartDigests>, Refusal>,
)
    requires
        call_ensures(UploadSessions::upload_take, (sessions, id, now), parts),
    ensures
        parts is Ok <==> old(sessions)@.contains_key(id@) && !old(sessions).stale(id@, now as int),
        parts matches Ok(p) ==> p@ == old(sessions)@[id@].parts,
        final(sessions)@ == old(sessions)@.remove(id@),
        UploadSessions::taken(*old(sessions), *final(sessions), id@, now as int, parts),
{
}

/// An abort drops the session under the id, and only that, and tells whether there was
/// one.
pub proof fn law_abort_call(sessions: &mut UploadSessions, id: &str, dropped: bool)
    requires
        call_ensures(UploadSessions::upload_abort, (sessions, id), dropped),
    ensures
        dropped <==> old(sessions)@.contains_key(id@),
        final(sessions)@ == old(sessions)@.remove(id@),
        final(sessions).timeout() == old(sessions).timeout(),
{
}

/// What is told of an upload that is there and not too old: the bytes in its staging
/// file.
pub proof fn law_bytes_received_call(
    sessions: &mut UploadSessions,
    id: &str,
    now: u128,
    bytes: Lookup<u64>,
)
    requires
        call_ensures(UploadSessions::upload_bytes_received, (sessions, id, now), bytes),
    ensures
        bytes matches Lookup::Found(n) ==> n == old(sessions)@[id@].offset,
        bytes is Found <==> old(sessions)@.contains_key(id@) && !old(sessions).stale(
            id@,
            now as int,
        ),
        bytes is Expired <==> old(sessions).stale(id@, now as int),
        !(bytes is Expired) ==> final(sessions)@ == old(sessions)@,
        bytes is Expired ==> final(sessions)@ == old(sessions)@.remove(id@),
{
}

/// What is told of an upload that is there and not too old: its namespace.
pub proof fn law_namespace_call(
    sessions: &mut UploadSessions,
    id: &str,
    now: u128,
    namespace: Lookup<String>,
)
    requires
        call_ensures(UploadSessions::upload_namespace, (sessions, id, now), namespace),
    ensures
        namespace matches Lookup::Found(ns) ==> ns@ == old(sessions)@[id@].namespace,
        namespace is Found <==> old(sessions)@.contains_key(id@) && !old(sessions).stale(
            id@,
            now as int,
        ),
        namespace is Expired <==> old(sessions).stale(id@, now as int),
        !(namespace is Expired) ==> final(sessions)@ == old(sessions)@,
        namespace is Expired ==> final(sessions)@ == old(sessions)@.remove(id@),
{
}

/// What is told of an upload that is there and not too old: a row for each of its
/// parts, with the number, the digest in hexadecimal and the size.
pub proof fn law_part_info_call(
    sessions: &mut UploadSessions,
    id: &str,
    now: u128,
    rows: Lookup<Vec<(u32, String, u64)>>,
    i: int,
)
    requires
        call_ensures(UploadSessions::upload_part_info, (sessions, id, now), rows),
        rows is Found,
        0 <= i < old(sessions)@[id@].parts.len(),
    ensures
        rows matches Lookup::Found(r) && ({
            let parts = old(sessions)@[id@].parts;
            &&& r@.len() == parts.len()
            &&& r@[i].0 == parts[i].part_number
            &&& crate::text::hex_reads_as(r@[i].1@, parts[i].md5@)
            &&& r@[i].2 == parts[i].size
        }),
        old(sessions)@.contains_key(id@),
        !old(sessions).stale(id@, now as int),
        final(sessions)@ == old(sessions)@,
{
    let parts = old(sessions)@[id@].parts;
    law_part_rows_tell_the_parts(parts, i);
    if let Lookup::Found(r) = rows {
        assert(rows_view(r@).len() == r@.len());
        law_rows_by_view(r@, i);
    }
}

/// How far an upload has come is told as it is, whether it is too old or not.
pub proof fn law_progress(
    sessions: &UploadSessions,
    id: &str,
    progress: Option<(u64, usize)>,
)
    requires
        call_ensures(UploadSessions::upload_progress, (sessions, id), progress),
    ensures
        progress is Some <==> sessions@.contains_key(id@),
        progress matches Some(p) ==> p.0 == sessions@[id@].offset && p.1
            == sessions@[id@].parts.len(),
{
}

/// An eviction drops exactly the sessions that are older than the timeout it is given,
/// tells each of their ids once, and leaves every other session as it was.
pub proof fn law_eviction(
    sessions: &mut UploadSessions,
    timeout_secs: u64,
    now: u128,
    evicted: Vec<String>,
    id: Seq<char>,
)
    requires
        call_ensures(UploadSessions::upload_evict_expired, (sessions, timeout_secs, now), evicted),
        old(sessions)@.contains_key(id),
    ensures
        ({
            let session = old(sessions)@[id];
            let older = now > session.created_at + timeout_secs * 1_000_000_000;
            &&& final(sessions)@.contains_key(id) <==> !older
            &&& crate::text::texts(evicted@).contains(id) <==> older
            &&& !older ==> final(sessions)@[id] == session
        }),
        crate::text::texts(evicted@).no_duplicates(),
        forall|other: Seq<char>|
            !old(sessions)@.contains_key(other) ==> !#[trigger] final(sessions)@.contains_key(other)
                && !crate::text::texts(evicted@).contains(other),
        final(sessions).timeout() == old(sessions).timeout(),
{
}

/// A store of uploads begins with none, under the timeout that it was given.
pub proof fn law_no_sessions_at_first(
    timeout_secs: Option<u64>,
    sessions: UploadSessions,
    id: Seq<char>,
)
    requires
        call_ensures(UploadSessions::new, (timeout_secs,), sessions),
    ensures
        !sessions@.contains_key(id),
        sessions.timeout() == timeout_secs,
{
}

/// A new id is what the draw of a random UUID returned, each time.
pub(crate) proof fn law_upload_id_is_drawn(id: String)
    requires
        call_ensures(new_upload_id, (), id),
    ensures
        call_ensures(random_id, (), id),
{
}

} // verus!
