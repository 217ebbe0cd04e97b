//! The in-memory timeline store: chats, branches and message rows, in
//! insertion order.
//!
//! The store is append-only except for edit-in-place and soft deletion of
//! messages. Rows are appended in creation order, so the earliest-created
//! branch of a chat is the first one in store order, and a timeline read —
//! the non-deleted messages of one (chat, branch) pair, creation-ascending —
//! is a filter that preserves store order. A soft-deleted row is excluded
//! from reads but never removed.

use vstd::prelude::*;

use crate::models::BranchNode;
use crate::models::BranchNodeView;
use crate::models::ChatMessage;
use crate::models::ChatMessageView;
use crate::models::ChatSession;
use crate::models::ChatSessionView;
use crate::models::EngineError;
use crate::models::msgs_view;
use crate::models::opt_view;
use crate::text::spec_token_count;

verus! {

/// One stored message row: the message and its soft-delete flag.
pub struct MessageRow {
    pub message: ChatMessage,
    pub deleted: bool,
}

#[verifier::ext_equal]
pub ghost struct MessageRowView {
    pub message: ChatMessageView,
    pub deleted: bool,
}

impl View for MessageRow {
    type V = MessageRowView;

    open spec fn view(&self) -> MessageRowView {
        MessageRowView { message: self.message@, deleted: self.deleted }
    }
}

pub open spec fn rows_view(s: Seq<MessageRow>) -> Seq<MessageRowView> {
    s.map_values(|r: MessageRow| r@)
}

pub open spec fn chats_view(s: Seq<ChatSession>) -> Seq<ChatSessionView> {
    s.map_values(|c: ChatSession| c@)
}

pub open spec fn branches_view(s: Seq<BranchNode>) -> Seq<BranchNodeView> {
    s.map_values(|b: BranchNode| b@)
}

/// The store's mathematical state.
#[verifier::ext_equal]
pub ghost struct StoreView {
    pub chats: Seq<ChatSessionView>,
    pub branches: Seq<BranchNodeView>,
    pub rows: Seq<MessageRowView>,
}

/// The non-deleted messages of one (chat, branch) pair, in store order.
pub open spec fn timeline_of(rows: Seq<MessageRowView>, c: Seq<char>, b: Seq<char>) -> Seq<
    ChatMessageView,
>
    decreases rows.len(),
{
    if rows.len() == 0 {
        Seq::<ChatMessageView>::empty()
    } else {
        let init = timeline_of(rows.drop_last(), c, b);
        let r = rows.last();
        if !r.deleted && r.message.chat_id == c && r.message.branch_id == b {
            init.push(r.message)
        } else {
            init
        }
    }
}

/// The first branch of the chat in store order — the earliest created,
/// since branches are appended in creation order.
pub open spec fn first_branch_for(bs: Seq<BranchNodeView>, c: Seq<char>) -> Option<BranchNodeView>
    decreases bs.len(),
{
    if bs.len() == 0 {
        Option::None
    } else if bs[0].chat_id == c {
        Option::Some(bs[0])
    } else {
        first_branch_for(bs.drop_first(), c)
    }
}

/// The most recent non-deleted user message of one (chat, branch) pair.
pub open spec fn last_user_of(rows: Seq<MessageRowView>, c: Seq<char>, b: Seq<char>) -> Option<
    ChatMessageView,
>
    decreases rows.len(),
{
    if rows.len() == 0 {
        Option::None
    } else {
        let r = rows.last();
        if !r.deleted && r.message.chat_id == c && r.message.branch_id == b && r.message.role
            == "user"@ {
            Option::Some(r.message)
        } else {
            last_user_of(rows.drop_last(), c, b)
        }
    }
}

/// A message row edited in place: on an id match the content is replaced
/// and the token count recomputed.
pub open spec fn edited_row(r: MessageRowView, id: Seq<char>, content: Seq<char>) -> MessageRowView {
    if r.message.id == id {
        MessageRowView {
            message: ChatMessageView {
                content,
                token_count: spec_token_count(content),
                ..r.message
            },
            ..r
        }
    } else {
        r
    }
}

/// A message row soft-deleted on an id match.
pub open spec fn deleted_row(r: MessageRowView, id: Seq<char>) -> MessageRowView {
    if r.message.id == id {
        MessageRowView { deleted: true, ..r }
    } else {
        r
    }
}

/// Copy a message value.
pub fn clone_message(m: &ChatMessage) -> (r: ChatMessage)
    ensures
        r@ == m@,
{
    let parent_id = match &m.parent_id {
        Option::Some(p) => Option::Some(p.clone()),
        Option::None => Option::None,
    };
    ChatMessage {
        id: m.id.clone(),
        chat_id: m.chat_id.clone(),
        branch_id: m.branch_id.clone(),
        role: m.role.clone(),
        content: m.content.clone(),
        token_count: m.token_count,
        created_at: m.created_at.clone(),
        parent_id,
    }
}

/// The timeline store.
pub struct TimelineStore {
    chats: Vec<ChatSession>,
    branches: Vec<BranchNode>,
    rows: Vec<MessageRow>,
}

impl View for TimelineStore {
    type V = StoreView;

    closed spec fn view(&self) -> StoreView {
        StoreView {
            chats: chats_view(self.chats@),
            branches: branches_view(self.branches@),
            rows: rows_view(self.rows@),
        }
    }
}

impl TimelineStore {
    /// An empty store.
    pub fn new() -> (r: TimelineStore)
        ensures
            r@.chats == Seq::<ChatSessionView>::empty(),
            r@.branches == Seq::<BranchNodeView>::empty(),
            r@.rows == Seq::<MessageRowView>::empty(),
    {
        let r = TimelineStore { chats: Vec::new(), branches: Vec::new(), rows: Vec::new() };
        proof {
            assert(r@.chats =~= Seq::<ChatSessionView>::empty());
            assert(r@.branches =~= Seq::<BranchNodeView>::empty());
            assert(r@.rows =~= Seq::<MessageRowView>::empty());
        }
        r
    }

    /// Append a chat.
    pub fn insert_chat(&mut self, chat: ChatSession)
        ensures
            final(self)@.chats == old(self)@.chats.push(chat@),
            final(self)@.branches == old(self)@.branches,
            final(self)@.rows == old(self)@.rows,
    {
        let ghost c0 = self.chats@;
        self.chats.push(chat);
        proof {
            assert(chats_view(self.chats@) =~= chats_view(c0).push(self.chats@.last()@));
        }
    }

    /// Append a branch. Messages are never touched: forking inserts a
    /// branch row and nothing else.
    pub fn insert_branch(&mut self, branch: BranchNode)
        ensures
            final(self)@.branches == old(self)@.branches.push(branch@),
            final(self)@.chats == old(self)@.chats,
            final(self)@.rows == old(self)@.rows,
    {
        let ghost b0 = self.branches@;
        self.branches.push(branch);
        proof {
            assert(branches_view(self.branches@) =~= branches_view(b0).push(
                self.branches@.last()@,
            ));
        }
    }

    /// Append a message row, not deleted.
    pub fn insert_message(&mut self, msg: ChatMessage)
        ensures
            final(self)@.rows == old(self)@.rows.push(
                MessageRowView { message: msg@, deleted: false },
            ),
            final(self)@.chats == old(self)@.chats,
            final(self)@.branches == old(self)@.branches,
    {
        let ghost r0 = self.rows@;
        self.rows.push(MessageRow { message: msg, deleted: false });
        proof {
            assert(rows_view(self.rows@) =~= rows_view(r0).push(self.rows@.last()@));
        }
    }

    /// Replace the content of every message with the given id and recompute
    /// its token count.
    pub fn edit_message(&mut self, message_id: &String, content: String)
        ensures
            final(self)@.rows == old(self)@.rows.map_values(
                |r: MessageRowView| edited_row(r, message_id@, content@),
            ),
            final(self)@.chats == old(self)@.chats,
            final(self)@.branches == old(self)@.branches,
    {
        let ghost r0 = rows_view(self.rows@);
        let tc = crate::text::rough_token_count(content.as_str());
        let mut rest = self.rows.split_off(0);
        proof {
            assert(self.rows@.len() == 0);
            assert(rows_view(self.rows@) =~= Seq::<MessageRowView>::empty());
            assert(rest@ == old(self).rows@);
        }
        let ghost mut i: int = 0;
        while rest.len() > 0
            invariant
                0 <= i <= r0.len(),
                tc == spec_token_count(content@),
                rows_view(rest@) == r0.subrange(i, r0.len() as int),
                rows_view(self.rows@) == r0.subrange(0, i).map_values(
                    |r: MessageRowView| edited_row(r, message_id@, content@),
                ),
                self.chats@ == old(self).chats@,
                self.branches@ == old(self).branches@,
            decreases rest@.len(),
        {
            let ghost p0 = rest@;
            let mut row = rest.remove(0);
            proof {
                assert(rows_view(p0).len() == p0.len());
                assert(row == p0[0]);
                assert(rows_view(p0)[0] == p0[0]@);
                assert(row@ == r0.subrange(i, r0.len() as int)[0]);
                assert forall|j: int| 0 <= j < rest@.len() implies rows_view(rest@)[j]
                    == r0.subrange(i + 1, r0.len() as int)[j] by {
                    assert(rest@[j] == p0[j + 1]);
                    assert(rows_view(p0)[j + 1] == r0.subrange(i, r0.len() as int)[j + 1]);
                }
                assert(rows_view(rest@) =~= r0.subrange(i + 1, r0.len() as int));
            }
            let ghost rv = row@;
            if row.message.id == *message_id {
                row.message.content = content.clone();
                row.message.token_count = tc;
                proof {
                    assert(row@ =~= edited_row(rv, message_id@, content@));
                }
            } else {
                proof {
                    assert(row@ =~= edited_row(rv, message_id@, content@));
                }
            }
            let ghost s0 = self.rows@;
            self.rows.push(row);
            proof {
                assert(rows_view(self.rows@) =~= rows_view(s0).push(row@));
                let pre = r0.subrange(0, i).map_values(
                    |r: MessageRowView| edited_row(r, message_id@, content@),
                );
                let cur = r0.subrange(0, i + 1).map_values(
                    |r: MessageRowView| edited_row(r, message_id@, content@),
                );
                assert forall|j: int| 0 <= j < cur.len() implies cur[j] == pre.push(
                    edited_row(rv, message_id@, content@),
                )[j] by {
                    if j < i {
                        assert(r0.subrange(0, i + 1)[j] == r0.subrange(0, i)[j]);
                    } else {
                        assert(r0.subrange(0, i + 1)[j] == rv);
                    }
                }
                assert(cur =~= pre.push(edited_row(rv, message_id@, content@)));
                assert(rows_view(self.rows@) =~= cur);
                i = i + 1;
            }
        }
        proof {
            assert(r0.subrange(0, r0.len() as int) =~= r0);
        }
    }

    /// Soft-delete every message with the given id: excluded from reads,
    /// never removed.
    pub fn delete_message(&mut self, message_id: &String)
        ensures
            final(self)@.rows == old(self)@.rows.map_values(
                |r: MessageRowView| deleted_row(r, message_id@),
            ),
            final(self)@.chats == old(self)@.chats,
            final(self)@.branches == old(self)@.branches,
    {
        let ghost r0 = rows_view(self.rows@);
        let mut rest = self.rows.split_off(0);
        proof {
            assert(rows_view(self.rows@) =~= Seq::<MessageRowView>::empty());
        }
        let ghost mut i: int = 0;
        while rest.len() > 0
            invariant
                0 <= i <= r0.len(),
                rows_view(rest@) == r0.subrange(i, r0.len() as int),
                rows_view(self.rows@) == r0.subrange(0, i).map_values(
                    |r: MessageRowView| deleted_row(r, message_id@),
                ),
                self.chats@ == old(self).chats@,
                self.branches@ == old(self).branches@,
            decreases rest@.len(),
        {
            let ghost p0 = rest@;
            let mut row = rest.remove(0);
            proof {
                assert(rows_view(p0).len() == p0.len());
                assert(row == p0[0]);
                assert(rows_view(p0)[0] == p0[0]@);
                assert(row@ == r0.subrange(i, r0.len() as int)[0]);
                assert forall|j: int| 0 <= j < rest@.len() implies rows_view(rest@)[j]
                    == r0.subrange(i + 1, r0.len() as int)[j] by {
                    assert(rest@[j] == p0[j + 1]);
                    assert(rows_view(p0)[j + 1] == r0.subrange(i, r0.len() as int)[j + 1]);
                }
                assert(rows_view(rest@) =~= r0.subrange(i + 1, r0.len() as int));
            }
            let ghost rv = row@;
            if row.message.id == *message_id {
                row.deleted = true;
            }
            proof {
                assert(row@ =~= deleted_row(rv, message_id@));
            }
            let ghost s0 = self.rows@;
            self.rows.push(row);
            proof {
                assert(rows_view(self.rows@) =~= rows_view(s0).push(row@));
                let pre = r0.subrange(0, i).map_values(
                    |r: MessageRowView| deleted_row(r, message_id@),
                );
                let cur = r0.subrange(0, i + 1).map_values(
                    |r: MessageRowView| deleted_row(r, message_id@),
                );
                assert forall|j: int| 0 <= j < cur.len() implies cur[j] == pre.push(
                    deleted_row(rv, message_id@),
                )[j] by {
                    if j < i {
                        assert(r0.subrange(0, i + 1)[j] == r0.subrange(0, i)[j]);
                    } else {
                        assert(r0.subrange(0, i + 1)[j] == rv);
                    }
                }
                assert(cur =~= pre.push(deleted_row(rv, message_id@)));
                assert(rows_view(self.rows@) =~= cur);
                i = i + 1;
            }
        }
        proof {
            assert(r0.subrange(0, r0.len() as int) =~= r0);
        }
    }

    /// Read the timeline of one (chat, branch) pair: its non-deleted
    /// messages in creation order.
    pub fn timeline(&self, chat_id: &String, branch_id: &String) -> (r: Vec<ChatMessage>)
        ensures
            msgs_view(r@) == timeline_of(self@.rows, chat_id@, branch_id@),
    {
        let ghost rv = rows_view(self.rows@);
        let mut out: Vec<ChatMessage> = Vec::new();
        let mut i: usize = 0;
        let n = self.rows.len();
        while i < n
            invariant
                0 <= i <= n,
                n == self.rows@.len(),
                rv == rows_view(self.rows@),
                msgs_view(out@) == timeline_of(rv.subrange(0, i as int), chat_id@, branch_id@),
            decreases n - i,
        {
            proof {
                let pre = rv.subrange(0, i as int);
                let cur = rv.subrange(0, i + 1 as int);
                assert(cur.drop_last() =~= pre);
                assert(cur.last() == rv[i as int]);
                assert(rv[i as int] == self.rows@[i as int]@);
            }
            let row = &self.rows[i];
            if !row.deleted && row.message.chat_id == *chat_id && row.message.branch_id
                == *branch_id {
                let ghost o0 = out@;
                out.push(clone_message(&row.message));
                proof {
                    assert(msgs_view(out@) =~= msgs_view(o0).push(out@.last()@));
                }
            }
            proof {
                assert(msgs_view(out@) =~= timeline_of(
                    rv.subrange(0, i + 1 as int),
                    chat_id@,
                    branch_id@,
                ));
            }
            i = i + 1;
        }
        proof {
            assert(rv.subrange(0, n as int) =~= rv);
        }
        out
    }

    /// The id of the earliest-created branch of the chat, if any.
    pub fn first_branch_id(&self, chat_id: &String) -> (r: Option<String>)
        ensures
            match first_branch_for(self@.branches, chat_id@) {
                Option::Some(b) => r matches Option::Some(s) && s@ == b.id,
                Option::None => r is None,
            },
    {
        let ghost bv = branches_view(self.branches@);
        let mut i: usize = 0;
        let n = self.branches.len();
        proof {
            assert(bv.subrange(0, n as int) =~= bv);
        }
        while i < n
            invariant
                0 <= i <= n,
                n == self.branches@.len(),
                bv == branches_view(self.branches@),
                first_branch_for(bv, chat_id@) == first_branch_for(
                    bv.subrange(i as int, n as int),
                    chat_id@,
                ),
            decreases n - i,
        {
            proof {
                assert(bv[i as int] == self.branches@[i as int]@);
            }
            let b = &self.branches[i];
            if b.chat_id == *chat_id {
                proof {
                    assert(bv.subrange(i as int, n as int)[0] == bv[i as int]);
                }
                return Option::Some(b.id.clone());
            }
            proof {
                let cur = bv.subrange(i as int, n as int);
                assert(cur[0] == bv[i as int]);
                assert(cur.drop_first() =~= bv.subrange(i + 1 as int, n as int));
            }
            i = i + 1;
        }
        proof {
            assert(bv.subrange(n as int, n as int) =~= Seq::<BranchNodeView>::empty());
        }
        Option::None
    }

    /// Map a chat and an optional branch id to a concrete branch id: a
    /// supplied id is returned unchanged; otherwise the earliest-created
    /// branch of the chat is used. A chat with no branches is a not-found
    /// error.
    pub fn resolve_branch(&self, chat_id: &String, branch_id: Option<String>) -> (r: Result<
        String,
        EngineError,
    >)
        ensures
            match branch_id {
                Option::Some(id) => r matches Result::Ok(s) && s@ == id@,
                Option::None => match first_branch_for(self@.branches, chat_id@) {
                    Option::Some(b) => r matches Result::Ok(s) && s@ == b.id,
                    Option::None => r matches Result::Err(e) && e == EngineError::NotFound,
                },
            },
    {
        match branch_id {
            Option::Some(id) => Result::Ok(id),
            Option::None => match self.first_branch_id(chat_id) {
                Option::Some(id) => Result::Ok(id),
                Option::None => Result::Err(EngineError::NotFound),
            },
        }
    }

    /// The most recent non-deleted user message of the (chat, branch) pair.
    pub fn last_user_message(&self, chat_id: &String, branch_id: &String) -> (r: Option<
        ChatMessage,
    >)
        ensures
            match last_user_of(self@.rows, chat_id@, branch_id@) {
                Option::Some(m) => r matches Option::Some(x) && x@ == m,
                Option::None => r is None,
            },
    {
        let ghost rv = rows_view(self.rows@);
        let mut i: usize = self.rows.len();
        proof {
            assert(rv.subrange(0, rv.len() as int) =~= rv);
        }
        while i > 0
            invariant
                0 <= i <= self.rows@.len(),
                rv == rows_view(self.rows@),
                last_user_of(rv, chat_id@, branch_id@) == last_user_of(
                    rv.subrange(0, i as int),
                    chat_id@,
                    branch_id@,
                ),
            decreases i,
        {
            proof {
                let cur = rv.subrange(0, i as int);
                assert(cur.last() == rv[i - 1]);
                assert(rv[i - 1] == self.rows@[i - 1]@);
                assert(cur.drop_last() =~= rv.subrange(0, i - 1));
            }
            let row = &self.rows[i - 1];
            let is_user = row.message.role == "user".to_owned();
            if !row.deleted && is_user && row.message.chat_id == *chat_id && row.message.branch_id
                == *branch_id {
                return Option::Some(clone_message(&row.message));
            }
            i = i - 1;
        }
        proof {
            assert(rv.subrange(0, 0) =~= Seq::<MessageRowView>::empty());
        }
        Option::None
    }
}

/// Appending a branch never changes which branch of a chat is first: the
/// earliest-created branch keeps resolving, however many forks follow.
pub proof fn lemma_first_branch_stable(bs: Seq<BranchNodeView>, nb: BranchNodeView, c: Seq<char>)
    requires
        first_branch_for(bs, c) is Some,
    ensures
        first_branch_for(bs.push(nb), c) == first_branch_for(bs, c),
    decreases bs.len(),
{
    assert(bs.len() > 0);
    assert(bs.push(nb)[0] == bs[0]);
    if bs[0].chat_id != c {
        assert(bs.push(nb).drop_first() =~= bs.drop_first().push(nb));
        lemma_first_branch_stable(bs.drop_first(), nb, c);
    }
}

/// What resolving without a branch id means: the branch found is the first
/// of the chat in store order — the earliest created, since branches are
/// appended in creation order — and nothing earlier belongs to the chat.
pub proof fn lemma_first_branch_is_first(bs: Seq<BranchNodeView>, c: Seq<char>)
    ensures
        match first_branch_for(bs, c) {
            Option::None => forall|i: int| 0 <= i < bs.len() ==> (#[trigger] bs[i]).chat_id != c,
            Option::Some(b) => exists|i: int|
                {
                    &&& 0 <= i < bs.len()
                    &&& #[trigger] bs[i] == b
                    &&& b.chat_id == c
                    &&& forall|j: int| 0 <= j < i ==> (#[trigger] bs[j]).chat_id != c
                },
        },
    decreases bs.len(),
{
    if bs.len() == 0 {
    } else if bs[0].chat_id == c {
        let b = bs[0];
        assert(first_branch_for(bs, c) == Option::Some(b));
        assert((0 <= 0 < bs.len() && #[trigger] bs[0] == b && b.chat_id == c && forall|j: int|
            0 <= j < 0 ==> (#[trigger] bs[j]).chat_id != c));
    } else {
        let t = bs.drop_first();
        lemma_first_branch_is_first(t, c);
        match first_branch_for(bs, c) {
            Option::None => {
                assert forall|j: int| 0 <= j < bs.len() implies (#[trigger] bs[j]).chat_id
                    != c by {
                    if j > 0 {
                        assert(t[j - 1] == bs[j]);
                        assert(t[j - 1].chat_id != c);
                    }
                }
            },
            Option::Some(b) => {
                assert(first_branch_for(t, c) == Option::Some(b));
                let i = choose|i: int|
                    {
                        &&& 0 <= i < t.len()
                        &&& #[trigger] t[i] == b
                        &&& b.chat_id == c
                        &&& forall|j: int| 0 <= j < i ==> (#[trigger] t[j]).chat_id != c
                    };
                assert(t[i] == bs[i + 1]);
                assert forall|j: int| 0 <= j < i + 1 implies (#[trigger] bs[j]).chat_id != c by {
                    if j > 0 {
                        assert(t[j - 1] == bs[j]);
                        assert(t[j - 1].chat_id != c);
                    }
                }
                assert((0 <= i + 1 < bs.len() && #[trigger] bs[i + 1] == b && b.chat_id == c
                    && forall|j: int| 0 <= j < i + 1 ==> (#[trigger] bs[j]).chat_id != c));
            },
        }
    }
}

/// One full turn appends exactly two messages to the branch timeline: the
/// user message, then the assistant message answering it, in that order,
/// with everything already there unchanged.
pub proof fn lemma_turn_appends_two_messages(
    rows: Seq<MessageRowView>,
    user: MessageRowView,
    assistant: MessageRowView,
    c: Seq<char>,
    b: Seq<char>,
)
    requires
        !user.deleted,
        user.message.chat_id == c,
        user.message.branch_id == b,
        !assistant.deleted,
        assistant.message.chat_id == c,
        assistant.message.branch_id == b,
    ensures
        timeline_of(rows.push(user).push(assistant), c, b) == timeline_of(rows, c, b).push(
            user.message,
        ).push(assistant.message),
{
    let r1 = rows.push(user);
    let r2 = r1.push(assistant);
    assert(r2.drop_last() =~= r1);
    assert(r1.drop_last() =~= rows);
    assert(r2.last() == assistant);
    assert(r1.last() == user);
    assert(timeline_of(r1, c, b) == timeline_of(rows, c, b).push(user.message));
    assert(timeline_of(r2, c, b) == timeline_of(r1, c, b).push(assistant.message));
}

/// Every message a timeline read returns belongs to the requested chat and
/// branch: messages that exist only on sibling branches never appear.
pub proof fn lemma_timeline_on_branch(rows: Seq<MessageRowView>, c: Seq<char>, b: Seq<char>)
    ensures
        forall|i: int| 0 <= i < timeline_of(rows, c, b).len() ==> {
            &&& (#[trigger] timeline_of(rows, c, b)[i]).chat_id == c
            &&& timeline_of(rows, c, b)[i].branch_id == b
        },
    decreases rows.len(),
{
    if rows.len() > 0 {
        lemma_timeline_on_branch(rows.drop_last(), c, b);
    }
}

} // verus!
