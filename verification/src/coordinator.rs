//! The message router: classifies an inbound memo as REGISTER, AUTH or an
//! authenticated command, enforces the authentication gate, and dispatches
//! commands to the virtual filesystem.
//!
//! Authentication is the placeholder policy the protocol ships with: a
//! command is accepted only when its sender has completed the REGISTER/AUTH
//! exchange and the message carries a signature marker; no cryptographic
//! verification against a key is performed here.
use vstd::hash_map::StringHashMap;
use vstd::prelude::*;
use crate::clock::now_unix_seconds;
use crate::filesystem::{
    attach_view, has_child_name, msg_cannot_add_to_file, msg_cannot_create_root,
    msg_directory_exists, msg_parent_not_found, msg_permission_denied_parent, new_directory_view,
    new_file_view, resolve_view, FileNode, FileSystem, FileType, NodeView,
};
use crate::hashing::{sha256_hex, sha256_hex_of};
use crate::message::Message;
use crate::paths::canon_segments;
use crate::registry::{swept, ChallengeTable, ChallengeView};
use crate::strutil::{
    dec_str, join_with, lex_sorted, str_has_prefix, str_suffix_from, u64_to_dec,
};

verus! {

/// Ghost model of the whole coordinator: the three registries as maps, the
/// filesystem tree, and the configured session timeout.
#[verifier::ext_equal]
pub struct CoordModel {
    pub timeout: u64,
    pub verified: Map<Seq<char>, Seq<char>>,
    pub pending: Map<Seq<char>, ChallengeView>,
    pub sessions: Map<Seq<char>, Seq<char>>,
    pub fs: NodeView,
}

/// A map of identities, read at the view level.
pub open spec fn ids_view(m: Map<Seq<char>, String>) -> Map<Seq<char>, Seq<char>> {
    m.map_values(|v: String| v@)
}

/// The challenge token issued to `sender` at `now`: a 16-character hex
/// prefix of a digest over the sender, the time and a domain tag.
pub open spec fn challenge_token_of(sender: Seq<char>, now: u64) -> Seq<char> {
    sha256_hex_of(sender + dec_str(now as nat) + "zatboard_challenge"@).subrange(0, 16)
}

/// The session id issued to `sender` at `now`, under its own domain tag.
pub open spec fn session_id_of(sender: Seq<char>, now: u64) -> Seq<char> {
    sha256_hex_of(sender + dec_str(now as nat) + "zatboard_session"@).subrange(0, 16)
}

/// REGISTER: a fresh challenge is recorded for the sender, replacing any
/// pending one.
pub open spec fn register_transition(
    pre: CoordModel,
    sender: Seq<char>,
    reply: Seq<char>,
    now: u64,
) -> CoordModel {
    CoordModel {
        pending: pre.pending.insert(
            sender,
            (ChallengeView { token: challenge_token_of(sender, now), reply_address: reply, issued_at: now }),
        ),
        ..pre
    }
}

/// The reply to a successful REGISTER.
pub open spec fn register_reply(sender: Seq<char>, now: u64) -> Seq<char> {
    "Registration initiated. Please sign and send: AUTH:"@ + challenge_token_of(sender, now)
}

/// AUTH, accepted: the sender becomes verified under the reply identity of
/// its pending challenge, a session id is recorded for that identity, and
/// the challenge is consumed.
pub open spec fn auth_transition(pre: CoordModel, sender: Seq<char>, now: u64) -> CoordModel {
    let reply = pre.pending[sender].reply_address;
    CoordModel {
        verified: pre.verified.insert(sender, reply),
        sessions: pre.sessions.insert(session_id_of(sender, now), reply),
        pending: pre.pending.remove(sender),
        ..pre
    }
}

/// The reply to a successful AUTH.
pub open spec fn auth_reply(sender: Seq<char>, now: u64) -> Seq<char> {
    "Authentication successful. Session ID: "@ + session_id_of(sender, now)
}

pub open spec fn msg_auth_failed() -> Seq<char> {
    "Authentication failed. Invalid signature or challenge."@
}

pub open spec fn msg_auth_required() -> Seq<char> {
    "Authentication required. Send REGISTER:<reply_address> first."@
}

pub open spec fn msg_unknown_command() -> Seq<char> {
    "Unknown command. Try: ls <path>, cat <file>, mkdir <dir>, touch <file> [content]"@
}

/// The coordinator: the authentication registries and the filesystem they
/// guard. It owns its state exclusively; one message is processed to
/// completion before the next.
pub struct Coordinator {
    pub session_timeout: u64,
    pub verified_users: StringHashMap<String>,
    pub pending_challenges: ChallengeTable,
    pub session_mappings: StringHashMap<String>,
    pub filesystem: FileSystem,
}

impl Coordinator {
    pub open spec fn wf(self) -> bool {
        self.pending_challenges.wf() && self.filesystem.wf()
    }

    pub open spec fn model(self) -> CoordModel {
        CoordModel {
            timeout: self.session_timeout,
            verified: ids_view(self.verified_users@),
            pending: self.pending_challenges@,
            sessions: ids_view(self.session_mappings@),
            fs: self.filesystem.root@,
        }
    }

    /// A fresh coordinator: empty registries and a filesystem owned by the
    /// system identity.
    pub fn new(session_timeout: u64) -> (r: Coordinator)
        ensures
            r.wf(),
            r.model().timeout == session_timeout,
            r.model().verified == Map::<Seq<char>, Seq<char>>::empty(),
            r.model().pending == Map::<Seq<char>, ChallengeView>::empty(),
            r.model().sessions == Map::<Seq<char>, Seq<char>>::empty(),
            r.model().fs == new_directory_view("/"@, "coordinator"@, r.model().fs.created_at),
    {
        let r = Coordinator {
            session_timeout,
            verified_users: StringHashMap::new(),
            pending_challenges: ChallengeTable::new(),
            session_mappings: StringHashMap::new(),
            filesystem: FileSystem::new("coordinator".to_owned()),
        };
        proof {
            assert(ids_view(r.verified_users@) =~= Map::<Seq<char>, Seq<char>>::empty());
            assert(ids_view(r.session_mappings@) =~= Map::<Seq<char>, Seq<char>>::empty());
        }
        r
    }

    /// The reply identity recorded for a session id.
    pub fn get_reply_address_by_session(&self, session_id: &str) -> (r: Option<String>)
        ensures
            match r {
                Some(a) => self.model().sessions.contains_key(session_id@) && a@ == self.model().sessions[session_id@],
                None => !self.model().sessions.contains_key(session_id@),
            },
    {
        match self.session_mappings.get(session_id) {
            Some(a) => Some(a.clone()),
            None => None,
        }
    }

    /// The whole session registry.
    pub fn get_all_sessions(&self) -> (r: &StringHashMap<String>)
        ensures
            r@ == self.session_mappings@,
            ids_view(r@) == self.model().sessions,
    {
        &self.session_mappings
    }

    /// The reply identity of a verified sender.
    pub fn get_reply_address(&self, user_id: &str) -> (r: Option<String>)
        ensures
            match r {
                Some(a) => self.model().verified.contains_key(user_id@) && a@ == self.model().verified[user_id@],
                None => !self.model().verified.contains_key(user_id@),
            },
    {
        match self.verified_users.get(user_id) {
            Some(a) => Some(a.clone()),
            None => None,
        }
    }

    /// Whether `user_id` has completed authentication.
    pub fn is_user_verified(&self, user_id: &str) -> (r: bool)
        ensures
            r == self.model().verified.contains_key(user_id@),
    {
        self.verified_users.contains_key(user_id)
    }

    /// The authentication gate: a command is accepted only from a verified
    /// sender whose message carries a signature marker.
    fn verify_sender_identity(&self, message: &Message) -> (r: bool)
        ensures
            r == (self.model().verified.contains_key(message.sender_address@)
                && message.signature is Some),
    {
        self.verified_users.contains_key(message.sender_address.as_str())
            && message.signature.is_some()
    }

    /// Purges pending challenges older than the session timeout, judged at
    /// `now`. Safe to call repeatedly: a second sweep at the same instant
    /// changes nothing more.
    pub fn cleanup_expired_sessions_at(&mut self, now: u64)
        requires
            old(self).wf(),
        ensures
            final(self).wf(),
            final(self).model() == (CoordModel {
                pending: swept(old(self).model().pending, now, old(self).session_timeout),
                ..old(self).model()
            }),
    {
        let timeout = self.session_timeout;
        self.pending_challenges.cleanup_expired(now, timeout);
        proof {
            assert(final(self).model() =~= (CoordModel {
                pending: swept(old(self).model().pending, now, old(self).session_timeout),
                ..old(self).model()
            }));
        }
    }

    /// Purges pending challenges older than the session timeout, judged at
    /// the current time.
    pub fn cleanup_expired_sessions(&mut self)
        requires
            old(self).wf(),
        ensures
            final(self).wf(),
            exists|now: u64|
                final(self).model() == (CoordModel {
                    pending: #[trigger] swept(old(self).model().pending, now, old(self).session_timeout),
                    ..old(self).model()
                }),
    {
        let now = now_unix_seconds();
        self.cleanup_expired_sessions_at(now);
    }

    fn make_challenge_token(sender: &str, now: u64) -> (r: String)
        ensures
            r@ == challenge_token_of(sender@, now),
    {
        let mut payload = sender.to_owned();
        let ts = u64_to_dec(now);
        payload.append(ts.as_str());
        payload.append("zatboard_challenge");
        let digest = sha256_hex(payload.as_str());
        let token = digest.as_str().substring_char(0, 16);
        token.to_owned()
    }

    fn generate_session_id(user_address: &str, now: u64) -> (r: String)
        ensures
            r@ == session_id_of(user_address@, now),
    {
        let mut payload = user_address.to_owned();
        let ts = u64_to_dec(now);
        payload.append(ts.as_str());
        payload.append("zatboard_session");
        let digest = sha256_hex(payload.as_str());
        let id = digest.as_str().substring_char(0, 16);
        id.to_owned()
    }

    /// Handles a REGISTER memo at time `now`: issues a challenge and tells
    /// the sender to echo it back signed.
    fn handle_registration_at(&mut self, message: &Message, now: u64) -> (r: Result<String, String>)
        requires
            old(self).wf(),
            crate::strutil::has_prefix(message.memo_text@, "REGISTER:"@),
        ensures
            final(self).wf(),
            final(self).model() == register_transition(
                old(self).model(),
                message.sender_address@,
                message.memo_text@.skip(9),
                now,
            ),
            r is Ok && r->Ok_0@ == register_reply(message.sender_address@, now),
    {
        proof {
            reveal_strlit("REGISTER:");
        }
        let reply_address = str_suffix_from(message.memo_text.as_str(), 9);
        let token = Self::make_challenge_token(message.sender_address.as_str(), now);
        self.pending_challenges.put(
            message.sender_address.clone(),
            token.clone(),
            reply_address,
            now,
        );
        let mut out = "Registration initiated. Please sign and send: AUTH:".to_owned();
        out.append(token.as_str());
        proof {
            assert(final(self).model() =~= register_transition(
                old(self).model(),
                message.sender_address@,
                message.memo_text@.skip(9),
                now,
            ));
        }
        Ok(out)
    }

    /// Handles an AUTH memo at time `now`. The placeholder policy accepts
    /// the attempt when a challenge is pending for the sender and the
    /// message carries a signature marker; the pending challenge is then
    /// consumed and the sender is verified. On failure the pending
    /// challenge, if any, stays for a retry.
    fn handle_authentication_at(&mut self, message: &Message, now: u64) -> (r: Result<
        String,
        String,
    >)
        requires
            old(self).wf(),
        ensures
            final(self).wf(),
            if old(self).model().pending.contains_key(message.sender_address@)
                && message.signature is Some {
                final(self).model() == auth_transition(
                    old(self).model(),
                    message.sender_address@,
                    now,
                ) && r is Ok && r->Ok_0@ == auth_reply(message.sender_address@, now)
            } else {
                final(self).model() == old(self).model() && (r matches Err(e) && e@
                    == msg_auth_failed())
            },
    {
        let sender = message.sender_address.as_str();
        let pending = self.pending_challenges.get(sender);
        let reply_address: String = match pending {
            Some(entry) => entry.reply_address.clone(),
            None => {
                return Err("Authentication failed. Invalid signature or challenge.".to_owned());
            },
        };
        if message.signature.is_none() {
            return Err("Authentication failed. Invalid signature or challenge.".to_owned());
        }
        let session_id = Self::generate_session_id(sender, now);
        self.verified_users.insert(message.sender_address.clone(), reply_address.clone());
        self.session_mappings.insert(session_id.clone(), reply_address);
        self.pending_challenges.take_out(sender);
        let mut out = "Authentication successful. Session ID: ".to_owned();
        out.append(session_id.as_str());
        proof {
            assert(ids_view(final(self).verified_users@) =~= old(self).model().verified.insert(
                message.sender_address@,
                old(self).model().pending[message.sender_address@].reply_address,
            ));
            assert(ids_view(final(self).session_mappings@) =~= old(self).model().sessions.insert(
                session_id_of(message.sender_address@, now),
                old(self).model().pending[message.sender_address@].reply_address,
            ));
            assert(final(self).model() =~= auth_transition(
                old(self).model(),
                message.sender_address@,
                now,
            ));
        }
        Ok(out)
    }
}

} // verus!

verus! {

pub open spec fn msg_path_not_found(path: Seq<char>) -> Seq<char> {
    "Path not found: "@ + path
}

pub open spec fn msg_file_not_found(path: Seq<char>) -> Seq<char> {
    "File not found: "@ + path
}

pub open spec fn msg_permission_denied_read_dir() -> Seq<char> {
    "Permission denied: cannot read directory"@
}

pub open spec fn msg_permission_denied_read_file() -> Seq<char> {
    "Permission denied: cannot read file"@
}

pub open spec fn msg_not_a_directory() -> Seq<char> {
    "Not a directory"@
}

pub open spec fn msg_not_a_file() -> Seq<char> {
    "Not a file"@
}

/// The listing entry shown for the child under key `k`.
pub open spec fn entry_str(k: Seq<char>, v: NodeView) -> Seq<char> {
    if v.file_type == FileType::Directory {
        k + seq!['/']
    } else {
        k
    }
}

/// Whether `entries` is a lexicographically sorted listing of exactly the
/// children in the map: every child appears, and nothing else does.
pub open spec fn listing_ok(children: Map<Seq<char>, NodeView>, entries: Seq<Seq<char>>) -> bool {
    &&& lex_sorted(entries)
    &&& entries.len() == children.len()
    &&& (forall|k: Seq<char>|
        children.dom().contains(k) ==> entries.contains(#[trigger] entry_str(k, children[k])))
    &&& (forall|e: Seq<char>|
        #[trigger] entries.contains(e) ==> exists|k: Seq<char>|
            children.dom().contains(k) && e == entry_str(k, children[k]))
}

/// The reply of `ls`: a sentinel for an empty directory, else the sorted
/// entries joined by a double space.
pub open spec fn ls_reply_ok(children: Map<Seq<char>, NodeView>, out: Seq<char>) -> bool {
    exists|entries: Seq<Seq<char>>|
        #[trigger] listing_ok(children, entries) && out == if entries.len() == 0 {
            "(empty directory)"@
        } else {
            join_with(entries, "  "@)
        }
}

/// What `ls <path>` returns, for every input.
pub open spec fn ls_post(
    fs: NodeView,
    user: Seq<char>,
    path: Seq<char>,
    r: Result<String, String>,
) -> bool {
    match resolve_view(fs, canon_segments(path)) {
        Option::None => r matches Err(e) && e@ == msg_path_not_found(path),
        Option::Some(p) => if !p.permissions.allows_read(user) {
            r matches Err(e) && e@ == msg_permission_denied_read_dir()
        } else if p.file_type != FileType::Directory {
            r matches Err(e) && e@ == msg_not_a_directory()
        } else {
            r matches Ok(o) && ls_reply_ok(p.children, o@)
        },
    }
}

/// What `cat <path>` returns, for every input.
pub open spec fn cat_post(
    fs: NodeView,
    user: Seq<char>,
    path: Seq<char>,
    r: Result<String, String>,
) -> bool {
    match resolve_view(fs, canon_segments(path)) {
        Option::None => r matches Err(e) && e@ == msg_file_not_found(path),
        Option::Some(p) => if !p.permissions.allows_read(user) {
            r matches Err(e) && e@ == msg_permission_denied_read_file()
        } else if p.file_type != FileType::File {
            r matches Err(e) && e@ == msg_not_a_file()
        } else {
            r matches Ok(o) && o@ == match p.content {
                Option::Some(c) => c,
                Option::None => "(empty file)"@,
            }
        },
    }
}

/// The filesystem `mkdir` leaves behind, or the error it reports.
pub open spec fn mkdir_result(fs: NodeView, path: Seq<char>, owner: Seq<char>, now: u64) -> Result<
    NodeView,
    Seq<char>,
> {
    let segs = canon_segments(path);
    let parent = segs.drop_last();
    let leaf = segs.last();
    if segs.len() == 0 {
        Err(msg_cannot_create_root())
    } else {
        match resolve_view(fs, parent) {
            Option::None => Err(msg_parent_not_found(parent)),
            Option::Some(p) => if !p.permissions.allows_write(owner) {
                Err(msg_permission_denied_parent())
            } else if p.children.dom().contains(leaf) {
                Err(msg_directory_exists())
            } else if p.file_type != FileType::Directory {
                Err(msg_cannot_add_to_file())
            } else {
                Ok(attach_view(fs, parent, new_directory_view(leaf, owner, now), now))
            },
        }
    }
}

/// The filesystem `touch` leaves behind, or the error it reports; an
/// existing child of the same name is silently overwritten.
pub open spec fn touch_result(
    fs: NodeView,
    path: Seq<char>,
    content: Seq<char>,
    owner: Seq<char>,
    now: u64,
) -> Result<NodeView, Seq<char>> {
    let segs = canon_segments(path);
    let parent = segs.drop_last();
    let leaf = segs.last();
    if segs.len() == 0 {
        Err(msg_cannot_create_root())
    } else {
        match resolve_view(fs, parent) {
            Option::None => Err(msg_parent_not_found(parent)),
            Option::Some(p) => if !p.permissions.allows_write(owner) {
                Err(msg_permission_denied_parent())
            } else if p.file_type != FileType::Directory {
                Err(msg_cannot_add_to_file())
            } else {
                Ok(attach_view(fs, parent, new_file_view(leaf, content, owner, now), now))
            },
        }
    }
}

/// The path argument of a `touch` memo: the characters after the verb, up
/// to the first space.
pub open spec fn touch_path(memo: Seq<char>) -> Seq<char> {
    let rest = memo.skip(6);
    rest.take(crate::strutil::first_index_of(rest, ' '))
}

/// The content argument of a `touch` memo: everything after the first space
/// after the path, or empty when there is none.
pub open spec fn touch_content(memo: Seq<char>) -> Seq<char> {
    let rest = memo.skip(6);
    let fi = crate::strutil::first_index_of(rest, ' ');
    if fi < rest.len() {
        rest.skip(fi + 1)
    } else {
        Seq::empty()
    }
}

impl Coordinator {
    /// Lists a directory for a user who may read it.
    fn handle_ls_command(&self, user_id: &str, path: &str) -> (r: Result<String, String>)
        requires
            self.wf(),
        ensures
            ls_post(self.model().fs, user_id@, path@, r),
    {
        let node = match self.filesystem.resolve_path(path) {
            Some(n) => n,
            None => {
                let msg = "Path not found: ".to_owned();
                return Err(msg.concat(path));
            },
        };
        if !node.permissions.can_read(user_id) {
            return Err("Permission denied: cannot read directory".to_owned());
        }
        if !matches!(node.file_type, FileType::Directory) {
            return Err("Not a directory".to_owned());
        }
        let listing = node.list_children();
        proof {
            broadcast use vstd::seq_lib::group_to_multiset_ensures;

            let m = node@.children;
            let dv = listing.deep_view();
            crate::filesystem::lemma_children_map_len(*node);
            assert(dv.len() == m.len());
            assert forall|k: Seq<char>| m.dom().contains(k) implies dv.contains(
                #[trigger] entry_str(k, m[k]),
            ) by {
                assert(has_child_name(*node, k));
                let i = crate::filesystem::child_index(*node, k);
                assert(0 <= i < node.children@.len() && node.children@[i].name@ == k);
                crate::filesystem::lemma_child_lookup(*node, k, i);
                assert(node.listing_entries()[i] == FileNode::child_entry(node.children@[i]));
                assert(node.listing_entries().contains(FileNode::child_entry(node.children@[i])));
                assert(entry_str(k, m[k]) == FileNode::child_entry(node.children@[i]));
                assert(dv.to_multiset().contains(entry_str(k, m[k])));
            }
            assert forall|e: Seq<char>| #[trigger] dv.contains(e) implies exists|k: Seq<char>|
                m.dom().contains(k) && e == entry_str(k, m[k]) by {
                assert(dv.to_multiset().contains(e));
                assert(node.listing_entries().to_multiset().contains(e));
                assert(node.listing_entries().contains(e));
                let j = choose|j: int|
                    0 <= j < node.listing_entries().len() && node.listing_entries()[j] == e;
                let k = node.children@[j].name@;
                crate::filesystem::lemma_child_lookup(*node, k, j);
                assert(m.dom().contains(k));
                assert(e == entry_str(k, m[k]));
            }
            assert(listing_ok(m, dv));
        }
        if listing.len() == 0 {
            proof {
                let dv = listing.deep_view();
                assert(dv.len() == 0);
                assert(ls_reply_ok(node@.children, "(empty directory)"@));
            }
            Ok("(empty directory)".to_owned())
        } else {
            let out = crate::strutil::join_strings(&listing, "  ");
            proof {
                let dv = listing.deep_view();
                assert(dv.len() > 0);
                assert(ls_reply_ok(node@.children, out@));
            }
            Ok(out)
        }
    }

    /// Returns a file's content for a user who may read it.
    fn handle_cat_command(&self, user_id: &str, path: &str) -> (r: Result<String, String>)
        requires
            self.wf(),
        ensures
            cat_post(self.model().fs, user_id@, path@, r),
    {
        let node = match self.filesystem.resolve_path(path) {
            Some(n) => n,
            None => {
                let msg = "File not found: ".to_owned();
                return Err(msg.concat(path));
            },
        };
        if !node.permissions.can_read(user_id) {
            return Err("Permission denied: cannot read file".to_owned());
        }
        if !matches!(node.file_type, FileType::File) {
            return Err("Not a file".to_owned());
        }
        match &node.content {
            Some(c) => Ok(c.clone()),
            None => Ok("(empty file)".to_owned()),
        }
    }

    /// Creates a directory on behalf of the user.
    fn handle_mkdir_command_at(&mut self, user_id: &str, path: &str, now: u64) -> (r: Result<
        String,
        String,
    >)
        requires
            old(self).wf(),
        ensures
            final(self).wf(),
            match mkdir_result(old(self).model().fs, path@, user_id@, now) {
                Ok(f2) => final(self).model() == (CoordModel { fs: f2, ..old(self).model() }) && (r
                    matches Ok(o) && o@ == "Directory created: "@ + path@),
                Err(e) => final(self).model() == old(self).model() && (r matches Err(x) && x@ == e),
            },
    {
        match self.filesystem.create_directory_at(path, user_id.to_owned(), now) {
            Ok(()) => {
                let msg = "Directory created: ".to_owned();
                Ok(msg.concat(path))
            },
            Err(e) => Err(e),
        }
    }

    /// Creates or overwrites a file on behalf of the user.
    fn handle_touch_command_at(
        &mut self,
        user_id: &str,
        path: &str,
        content: &str,
        now: u64,
    ) -> (r: Result<String, String>)
        requires
            old(self).wf(),
        ensures
            final(self).wf(),
            match touch_result(old(self).model().fs, path@, content@, user_id@, now) {
                Ok(f2) => final(self).model() == (CoordModel { fs: f2, ..old(self).model() }) && (r
                    matches Ok(o) && o@ == "File created: "@ + path@),
                Err(e) => final(self).model() == old(self).model() && (r matches Err(x) && x@ == e),
            },
    {
        match self.filesystem.create_file_at(path, content.to_owned(), user_id.to_owned(), now) {
            Ok(()) => {
                let msg = "File created: ".to_owned();
                Ok(msg.concat(path))
            },
            Err(e) => Err(e),
        }
    }
}

} // verus!

verus! {

/// What `mkdir <path>` does to the coordinator, for every input.
pub open spec fn mkdir_post(
    pre: CoordModel,
    post: CoordModel,
    sender: Seq<char>,
    path: Seq<char>,
    r: Result<String, String>,
    now: u64,
) -> bool {
    match mkdir_result(pre.fs, path, sender, now) {
        Ok(f2) => post == (CoordModel { fs: f2, ..pre }) && (r matches Ok(o) && o@
            == "Directory created: "@ + path),
        Err(e) => post == pre && (r matches Err(x) && x@ == e),
    }
}

/// What `touch <path> [content]` does to the coordinator, for every input.
pub open spec fn touch_post(
    pre: CoordModel,
    post: CoordModel,
    sender: Seq<char>,
    memo: Seq<char>,
    r: Result<String, String>,
    now: u64,
) -> bool {
    match touch_result(pre.fs, touch_path(memo), touch_content(memo), sender, now) {
        Ok(f2) => post == (CoordModel { fs: f2, ..pre }) && (r matches Ok(o) && o@
            == "File created: "@ + touch_path(memo)),
        Err(e) => post == pre && (r matches Err(x) && x@ == e),
    }
}

/// What an authenticated command does, for every memo: the four verbs, and
/// a usage hint for anything else.
pub open spec fn command_post(
    pre: CoordModel,
    post: CoordModel,
    sender: Seq<char>,
    memo: Seq<char>,
    r: Result<String, String>,
    now: u64,
) -> bool {
    if crate::strutil::has_prefix(memo, "ls "@) {
        post == pre && ls_post(pre.fs, sender, memo.skip(3), r)
    } else if crate::strutil::has_prefix(memo, "cat "@) {
        post == pre && cat_post(pre.fs, sender, memo.skip(4), r)
    } else if crate::strutil::has_prefix(memo, "mkdir "@) {
        mkdir_post(pre, post, sender, memo.skip(6), r, now)
    } else if crate::strutil::has_prefix(memo, "touch "@) {
        touch_post(pre, post, sender, memo, r, now)
    } else {
        post == pre && (r matches Err(e) && e@ == msg_unknown_command())
    }
}

/// What `process` does with one inbound message, for every message: REGISTER
/// issues a challenge, AUTH promotes a challenged sender carrying a
/// signature marker, anything else must pass the authentication gate and is
/// then dispatched as a command.
pub open spec fn process_post(
    pre: CoordModel,
    post: CoordModel,
    msg: Message,
    r: Result<String, String>,
    now: u64,
) -> bool {
    let memo = msg.memo_text@;
    let sender = msg.sender_address@;
    if crate::strutil::has_prefix(memo, "REGISTER:"@) {
        post == register_transition(pre, sender, memo.skip(9), now) && (r matches Ok(o) && o@
            == register_reply(sender, now))
    } else if crate::strutil::has_prefix(memo, "AUTH:"@) {
        if pre.pending.contains_key(sender) && msg.signature is Some {
            post == auth_transition(pre, sender, now) && (r matches Ok(o) && o@ == auth_reply(
                sender,
                now,
            ))
        } else {
            post == pre && (r matches Err(e) && e@ == msg_auth_failed())
        }
    } else if pre.verified.contains_key(sender) && msg.signature is Some {
        command_post(pre, post, sender, memo, r, now)
    } else {
        post == pre && (r matches Err(e) && e@ == msg_auth_required())
    }
}

impl Coordinator {
    /// Dispatches an already-authenticated command memo at time `now`.
    fn handle_authenticated_command_at(&mut self, message: &Message, now: u64) -> (r: Result<
        String,
        String,
    >)
        requires
            old(self).wf(),
        ensures
            final(self).wf(),
            command_post(
                old(self).model(),
                final(self).model(),
                message.sender_address@,
                message.memo_text@,
                r,
                now,
            ),
    {
        let memo = message.memo_text.as_str();
        if str_has_prefix(memo, "ls ") {
            proof {
                reveal_strlit("ls ");
            }
            let path = str_suffix_from(memo, 3);
            return self.handle_ls_command(message.sender_address.as_str(), path.as_str());
        }
        if str_has_prefix(memo, "cat ") {
            proof {
                reveal_strlit("cat ");
            }
            let path = str_suffix_from(memo, 4);
            return self.handle_cat_command(message.sender_address.as_str(), path.as_str());
        }
        if str_has_prefix(memo, "mkdir ") {
            proof {
                reveal_strlit("mkdir ");
            }
            let path = str_suffix_from(memo, 6);
            return self.handle_mkdir_command_at(message.sender_address.as_str(), path.as_str(), now);
        }
        if str_has_prefix(memo, "touch ") {
            proof {
                reveal_strlit("touch ");
            }
            let rest = str_suffix_from(memo, 6);
            let n = rest.as_str().unicode_len();
            let fi = crate::strutil::str_find_from(rest.as_str(), 0, ' ');
            proof {
                assert(rest@.skip(0) =~= rest@);
            }
            let path = rest.as_str().substring_char(0, fi);
            let content: String = if fi < n {
                str_suffix_from(rest.as_str(), fi + 1)
            } else {
                String::new()
            };
            proof {
                assert(path@ == touch_path(message.memo_text@));
                assert(content@ == touch_content(message.memo_text@));
            }
            return self.handle_touch_command_at(
                message.sender_address.as_str(),
                path,
                content.as_str(),
                now,
            );
        }
        Err("Unknown command. Try: ls <path>, cat <file>, mkdir <dir>, touch <file> [content]".to_owned())
    }

    /// Dispatches an already-authenticated command memo, stamping the
    /// current time.
    pub fn handle_authenticated_command(&mut self, message: &Message) -> (r: Result<String, String>)
        requires
            old(self).wf(),
        ensures
            final(self).wf(),
            exists|now: u64|
                #[trigger] command_post(
                    old(self).model(),
                    final(self).model(),
                    message.sender_address@,
                    message.memo_text@,
                    r,
                    now,
                ),
    {
        let now = now_unix_seconds();
        self.handle_authenticated_command_at(message, now)
    }

    /// Routes one inbound message at time `now`: REGISTER, AUTH, or an
    /// authenticated command behind the authentication gate.
    pub fn process_incoming_message_at(&mut self, message: &Message, now: u64) -> (r: Result<
        String,
        String,
    >)
        requires
            old(self).wf(),
        ensures
            final(self).wf(),
            process_post(old(self).model(), final(self).model(), *message, r, now),
    {
        let memo = message.memo_text.as_str();
        if str_has_prefix(memo, "REGISTER:") {
            return self.handle_registration_at(message, now);
        }
        if str_has_prefix(memo, "AUTH:") {
            return self.handle_authentication_at(message, now);
        }
        if self.verify_sender_identity(message) {
            self.handle_authenticated_command_at(message, now)
        } else {
            Err("Authentication required. Send REGISTER:<reply_address> first.".to_owned())
        }
    }

    /// Routes one inbound message, stamping the current time.
    pub fn process_incoming_message(&mut self, message: &Message) -> (r: Result<String, String>)
        requires
            old(self).wf(),
        ensures
            final(self).wf(),
            exists|now: u64|
                #[trigger] process_post(old(self).model(), final(self).model(), *message, r, now),
    {
        let now = now_unix_seconds();
        self.process_incoming_message_at(message, now)
    }
}

/// Round trip: REGISTER then an accepted AUTH leaves the sender verified
/// under the reply identity given at registration, and the issued session
/// id maps back to that same reply identity. The challenge is consumed.
pub proof fn lemma_register_then_auth_round_trip(
    pre: CoordModel,
    sender: Seq<char>,
    reply: Seq<char>,
    now1: u64,
    now2: u64,
)
    ensures
        ({
            let mid = register_transition(pre, sender, reply, now1);
            let post = auth_transition(mid, sender, now2);
            &&& mid.pending.contains_key(sender)
            &&& post.verified.contains_key(sender)
            &&& post.verified[sender] == reply
            &&& post.sessions.contains_key(session_id_of(sender, now2))
            &&& post.sessions[session_id_of(sender, now2)] == reply
            &&& !post.pending.contains_key(sender)
        }),
{
}

/// A second REGISTER before AUTH replaces the pending challenge: the
/// registry afterwards holds only the later token, reply identity and
/// stamp, as if the first registration had never happened.
pub proof fn lemma_second_register_replaces(
    pre: CoordModel,
    sender: Seq<char>,
    reply1: Seq<char>,
    reply2: Seq<char>,
    now1: u64,
    now2: u64,
)
    ensures
        register_transition(register_transition(pre, sender, reply1, now1), sender, reply2, now2)
            == register_transition(pre, sender, reply2, now2),
{
    let a = register_transition(register_transition(pre, sender, reply1, now1), sender, reply2, now2);
    let b = register_transition(pre, sender, reply2, now2);
    assert(a.pending =~= b.pending);
    assert(a =~= b);
}

} // verus!
