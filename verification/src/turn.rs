//! Turn Orchestrator: the state machine that sequences a conversation turn.
//!
//! A turn begins by resolving the branch and persisting the user message —
//! unconditionally, before any network activity, so user input is never
//! lost. The completion request is then prepared: the configuration must
//! name an active provider and model, the egress policy must admit the
//! provider's base URL, and the full non-deleted timeline, behind a fixed
//! system instruction block, becomes the exact message sequence sent —
//! no truncation or windowing. The caller drives the provider exchange
//! through the stream decoder and finally commits the accumulated
//! assistant text, which fails as an empty response when it is all
//! whitespace. The already-persisted user message is never rolled back.

use vstd::prelude::*;

use crate::models::ApiMessage;
use crate::models::BranchNode;
use crate::models::ChatMessage;
use crate::models::BranchNodeView;
use crate::models::ChatSendRequest;
use crate::models::ChatSession;
use crate::models::CompletionRequest;
use crate::models::EngineError;
use crate::models::ProviderProfileInput;
use crate::models::TurnConfig;
use crate::models::api_msgs_view;
use crate::models::clone_opt_string;
use crate::models::msgs_view;
use crate::models::opt_view;
use crate::decoder::find_nl;
use crate::decoder::lemma_find_nl_at;
use crate::decoder::lemma_find_nl_none;
use crate::models::ChatMessageView;
use crate::policy::egress_allowed;
use crate::policy::spec_egress_allowed;
use crate::store::TimelineStore;
use crate::store::first_branch_for;
use crate::store::last_user_of;
use crate::store::timeline_of;
use crate::text::all_ws;
use crate::text::chars_all_ws;
use crate::text::concat_strs;
use crate::text::rough_token_count;
use crate::text::spec_token_count;
use crate::text::string_chars;

verus! {

/// Relies on uuid::Uuid::new_v4 and its Display impl: a fresh random v4
/// UUID in hyphenated form, which is 36 characters. Nothing more can be
/// promised of a random value. The call aborts if the operating system's
/// random source fails — an environmental failure, like running out of
/// memory, not an input.
#[verifier::external_body]
fn fresh_id() -> (r: String)
    ensures
        r@.len() == 36,
{
    uuid::Uuid::new_v4().to_string()
}

/// Relies on chrono::Utc::now and DateTime::to_rfc3339: the current time
/// in RFC 3339 form, which is never empty. Nothing more can be promised of
/// the clock.
#[verifier::external_body]
fn now_rfc3339() -> (r: String)
    ensures
        r@.len() > 0,
{
    chrono::Utc::now().to_rfc3339()
}

/// The fixed system instruction prepended to every prompt context.
pub open spec fn system_instruction() -> Seq<char> {
    "You are an immersive RP assistant. Keep continuity and character consistency."@
}

fn system_instruction_text() -> (r: String)
    ensures
        r@ == system_instruction(),
{
    "You are an immersive RP assistant. Keep continuity and character consistency.".to_owned()
}

/// No active provider or no active model is selected.
pub open spec fn config_missing(c: TurnConfig) -> bool {
    c.active_provider_id is None || c.active_model is None
}

/// The branch a request addresses: a supplied id as it stands, otherwise
/// the earliest-created branch of the chat, if the chat has one.
pub open spec fn resolved_branch_id(
    branches: Seq<BranchNodeView>,
    chat: Seq<char>,
    requested: Option<Seq<char>>,
) -> Option<Seq<char>> {
    match requested {
        Option::Some(id) => Option::Some(id),
        Option::None => match first_branch_for(branches, chat) {
            Option::Some(b) => Option::Some(b.id),
            Option::None => Option::None,
        },
    }
}

/// The in-flight identity of one turn.
pub struct TurnTicket {
    pub chat_id: String,
    pub branch_id: String,
    pub user_message_id: String,
}

/// What a committed turn hands back: the assistant message's id and the
/// refreshed timeline.
pub struct TurnOutcome {
    pub assistant_message_id: String,
    pub timeline: Vec<ChatMessage>,
}

/// Create a chat together with its root branch, named "main", atomically.
pub fn chat_create(store: &mut TimelineStore, title: String) -> (r: ChatSession)
    ensures
        r.title@ == title@,
        final(store)@.chats == old(store)@.chats.push(r@),
        final(store)@.branches.len() == old(store)@.branches.len() + 1,
        final(store)@.branches.drop_last() == old(store)@.branches,
        ({
            let b = final(store)@.branches.last();
            &&& b.chat_id == r.id@
            &&& b.name == "main"@
            &&& b.parent_message_id is None
        }),
        final(store)@.rows == old(store)@.rows,
{
    let chat = ChatSession { id: fresh_id(), title, created_at: now_rfc3339() };
    store.insert_chat(
        ChatSession {
            id: chat.id.clone(),
            title: chat.title.clone(),
            created_at: chat.created_at.clone(),
        },
    );
    let root = BranchNode {
        id: fresh_id(),
        chat_id: chat.id.clone(),
        name: "main".to_owned(),
        parent_message_id: Option::None,
        created_at: now_rfc3339(),
    };
    store.insert_branch(root);
    proof {
        assert(final(store)@.branches.drop_last() =~= old(store)@.branches);
    }
    chat
}

/// Fork a new branch at an existing message. Only a branch row is
/// inserted: no existing message is ever mutated by forking.
pub fn chat_fork_branch(
    store: &mut TimelineStore,
    chat_id: String,
    parent_message_id: String,
    name: String,
) -> (r: BranchNode)
    ensures
        r.chat_id@ == chat_id@,
        r.name@ == name@,
        opt_view(r.parent_message_id) == Option::Some(parent_message_id@),
        final(store)@.branches == old(store)@.branches.push(r@),
        final(store)@.chats == old(store)@.chats,
        final(store)@.rows == old(store)@.rows,
{
    let branch = BranchNode {
        id: fresh_id(),
        chat_id,
        name,
        parent_message_id: Option::Some(parent_message_id),
        created_at: now_rfc3339(),
    };
    let copy = BranchNode {
        id: branch.id.clone(),
        chat_id: branch.chat_id.clone(),
        name: branch.name.clone(),
        parent_message_id: clone_opt_string(&branch.parent_message_id),
        created_at: branch.created_at.clone(),
    };
    store.insert_branch(copy);
    proof {
        assert(final(store)@.branches =~= old(store)@.branches.push(branch@));
    }
    branch
}

/// Resolve a chat and optional branch id against the store.
pub fn chat_get_timeline(
    store: &TimelineStore,
    chat_id: &String,
    branch_id: Option<String>,
) -> (r: Result<Vec<ChatMessage>, EngineError>)
    ensures
        match r {
            Result::Ok(tl) => resolved_branch_id(store@.branches, chat_id@, opt_view(branch_id))
                matches Option::Some(b) && msgs_view(tl@) == timeline_of(
                store@.rows,
                chat_id@,
                b,
            ),
            Result::Err(e) => e == EngineError::NotFound && resolved_branch_id(
                store@.branches,
                chat_id@,
                opt_view(branch_id),
            ) is None,
        },
{
    match store.resolve_branch(chat_id, branch_id) {
        Result::Ok(b) => Result::Ok(store.timeline(chat_id, &b)),
        Result::Err(e) => Result::Err(e),
    }
}

/// Begin a turn: resolve the branch and persist the user message, before
/// any network activity. The message carries the request content, the
/// computed token count, no parent, and a fresh id.
pub fn begin_turn(store: &mut TimelineStore, req: &ChatSendRequest) -> (r: Result<
    TurnTicket,
    EngineError,
>)
    ensures
        match r {
            Result::Ok(t) => {
                &&& t.chat_id@ == req.chat_id@
                &&& resolved_branch_id(old(store)@.branches, req.chat_id@, opt_view(req.branch_id))
                    == Option::Some(t.branch_id@)
                &&& final(store)@.chats == old(store)@.chats
                &&& final(store)@.branches == old(store)@.branches
                &&& final(store)@.rows.len() == old(store)@.rows.len() + 1
                &&& final(store)@.rows.drop_last() == old(store)@.rows
                &&& ({
                    let m = final(store)@.rows.last();
                    &&& !m.deleted
                    &&& m.message.id == t.user_message_id@
                    &&& m.message.chat_id == req.chat_id@
                    &&& m.message.branch_id == t.branch_id@
                    &&& m.message.role == "user"@
                    &&& m.message.content == req.content@
                    &&& m.message.token_count == spec_token_count(req.content@)
                    &&& m.message.parent_id is None
                })
            },
            Result::Err(e) => {
                &&& e == EngineError::NotFound
                &&& resolved_branch_id(old(store)@.branches, req.chat_id@, opt_view(req.branch_id))
                    is None
                &&& final(store)@ == old(store)@
            },
        },
{
    let branch_id = match store.resolve_branch(&req.chat_id, clone_opt_string(&req.branch_id)) {
        Result::Ok(b) => b,
        Result::Err(e) => {
            proof {
                assert(final(store)@ =~= old(store)@);
            }
            return Result::Err(e);
        },
    };
    let user_id = fresh_id();
    let token_count = rough_token_count(req.content.as_str());
    let msg = ChatMessage {
        id: user_id.clone(),
        chat_id: req.chat_id.clone(),
        branch_id: branch_id.clone(),
        role: "user".to_owned(),
        content: req.content.clone(),
        token_count,
        created_at: now_rfc3339(),
        parent_id: Option::None,
    };
    store.insert_message(msg);
    proof {
        assert(final(store)@.rows.drop_last() =~= old(store)@.rows);
    }
    Result::Ok(
        TurnTicket { chat_id: req.chat_id.clone(), branch_id, user_message_id: user_id },
    )
}

/// Prepare the completion request for a turn: check the configuration and
/// the egress policy, then assemble the exact message sequence — the fixed
/// system instruction followed by every timeline message in order.
pub fn prepare_request(
    store: &TimelineStore,
    ticket: &TurnTicket,
    config: &TurnConfig,
    provider: Option<&ProviderProfileInput>,
) -> (r: Result<CompletionRequest, EngineError>)
    ensures
        match r {
            Result::Err(e) => {
                &&& (e == EngineError::Configuration || e == EngineError::NotFound || e
                    == EngineError::PolicyViolation)
                &&& (e == EngineError::Configuration <==> config_missing(*config))
                &&& (e == EngineError::NotFound <==> !config_missing(*config) && provider is None)
                &&& (e == EngineError::PolicyViolation <==> !config_missing(*config) && (
                provider matches Option::Some(p) && !spec_egress_allowed(
                    config.full_local_mode,
                    p.full_local_only,
                    p.base_url@,
                )))
            },
            Result::Ok(cr) => {
                &&& !config_missing(*config)
                &&& provider matches Option::Some(p) && spec_egress_allowed(
                    config.full_local_mode,
                    p.full_local_only,
                    p.base_url@,
                )
                &&& opt_view(config.active_model) == Option::Some(cr.model@)
                &&& ({
                    let tl = timeline_of(store@.rows, ticket.chat_id@, ticket.branch_id@);
                    &&& cr.messages@.len() == tl.len() + 1
                    &&& api_msgs_view(cr.messages@)[0] == ("system"@, system_instruction())
                    &&& forall|i: int| 0 <= i < tl.len() ==> api_msgs_view(cr.messages@)[i + 1]
                        == ((#[trigger] tl[i]).role, tl[i].content)
                })
            },
        },
{
    match &config.active_provider_id {
        Option::Some(_) => {},
        Option::None => {
            return Result::Err(EngineError::Configuration);
        },
    }
    let model = match &config.active_model {
        Option::Some(m) => m.clone(),
        Option::None => {
            return Result::Err(EngineError::Configuration);
        },
    };
    let p = match provider {
        Option::Some(p) => p,
        Option::None => {
            return Result::Err(EngineError::NotFound);
        },
    };
    if !egress_allowed(config.full_local_mode, p.full_local_only, p.base_url.as_str()) {
        return Result::Err(EngineError::PolicyViolation);
    }
    let mut tl = store.timeline(&ticket.chat_id, &ticket.branch_id);
    let ghost tlv = msgs_view(tl@);
    let mut messages: Vec<ApiMessage> = Vec::new();
    messages.push(ApiMessage { role: "system".to_owned(), content: system_instruction_text() });
    proof {
        assert(api_msgs_view(messages@).len() == 1);
        assert(api_msgs_view(messages@)[0] == ("system"@, system_instruction()));
    }
    let ghost mut i: int = 0;
    while tl.len() > 0
        invariant
            0 <= i <= tlv.len(),
            msgs_view(tl@) == tlv.subrange(i, tlv.len() as int),
            api_msgs_view(messages@).len() == i + 1,
            api_msgs_view(messages@)[0] == ("system"@, system_instruction()),
            forall|j: int| 0 <= j < i ==> api_msgs_view(messages@)[j + 1] == ((
            #[trigger] tlv[j]).role, tlv[j].content),
        decreases tl@.len(),
    {
        let ghost t0 = tl@;
        let m = tl.remove(0);
        proof {
            assert(msgs_view(t0).len() == t0.len());
            assert(m == t0[0]);
            assert(msgs_view(t0)[0] == t0[0]@);
            assert(m@ == tlv.subrange(i, tlv.len() as int)[0]);
            assert forall|j: int| 0 <= j < tl@.len() implies msgs_view(tl@)[j] == tlv.subrange(
                i + 1,
                tlv.len() as int,
            )[j] by {
                assert(tl@[j] == t0[j + 1]);
                assert(msgs_view(t0)[j + 1] == tlv.subrange(i, tlv.len() as int)[j + 1]);
            }
            assert(msgs_view(tl@) =~= tlv.subrange(i + 1, tlv.len() as int));
        }
        let ghost m0 = messages@;
        messages.push(ApiMessage { role: m.role, content: m.content });
        proof {
            assert(messages@ == m0.push(messages@.last()));
            assert forall|j: int| 0 <= j < messages@.len() implies api_msgs_view(messages@)[j]
                == api_msgs_view(m0).push(
                (messages@.last().role@, messages@.last().content@),
            )[j] by {
                if j < m0.len() {
                    assert(messages@[j] == m0[j]);
                    assert(api_msgs_view(m0)[j] == (m0[j].role@, m0[j].content@));
                }
            }
            i = i + 1;
        }
    }
    proof {
        assert(msgs_view(tl@).len() == 0);
        assert(i == tlv.len());
    }
    Result::Ok(CompletionRequest { model, messages })
}

/// Commit a turn: persist the accumulated assistant text as an assistant
/// message answering the user message, and return the refreshed timeline.
/// Text that is empty or all whitespace fails as an empty response and
/// persists nothing — the user message stays.
pub fn commit_turn(store: &mut TimelineStore, ticket: &TurnTicket, assistant_text: String) -> (r:
    Result<TurnOutcome, EngineError>)
    ensures
        match r {
            Result::Err(e) => {
                &&& e == EngineError::EmptyResponse
                &&& all_ws(assistant_text@)
                &&& final(store)@ == old(store)@
            },
            Result::Ok(out) => {
                &&& !all_ws(assistant_text@)
                &&& final(store)@.chats == old(store)@.chats
                &&& final(store)@.branches == old(store)@.branches
                &&& final(store)@.rows.len() == old(store)@.rows.len() + 1
                &&& final(store)@.rows.drop_last() == old(store)@.rows
                &&& ({
                    let m = final(store)@.rows.last();
                    &&& !m.deleted
                    &&& m.message.id == out.assistant_message_id@
                    &&& m.message.chat_id == ticket.chat_id@
                    &&& m.message.branch_id == ticket.branch_id@
                    &&& m.message.role == "assistant"@
                    &&& m.message.content == assistant_text@
                    &&& m.message.token_count == spec_token_count(assistant_text@)
                    &&& m.message.parent_id == Option::Some(ticket.user_message_id@)
                })
                &&& msgs_view(out.timeline@) == timeline_of(
                    final(store)@.rows,
                    ticket.chat_id@,
                    ticket.branch_id@,
                )
            },
        },
{
    let cs = string_chars(assistant_text.as_str());
    if chars_all_ws(&cs) {
        proof {
            assert(final(store)@ =~= old(store)@);
        }
        return Result::Err(EngineError::EmptyResponse);
    }
    let assistant_id = fresh_id();
    let token_count = rough_token_count(assistant_text.as_str());
    let msg = ChatMessage {
        id: assistant_id.clone(),
        chat_id: ticket.chat_id.clone(),
        branch_id: ticket.branch_id.clone(),
        role: "assistant".to_owned(),
        content: assistant_text,
        token_count,
        created_at: now_rfc3339(),
        parent_id: Option::Some(ticket.user_message_id.clone()),
    };
    store.insert_message(msg);
    proof {
        assert(final(store)@.rows.drop_last() =~= old(store)@.rows);
    }
    let timeline = store.timeline(&ticket.chat_id, &ticket.branch_id);
    Result::Ok(TurnOutcome { assistant_message_id: assistant_id, timeline })
}

/// Regenerate: locate the most recent non-deleted user message of the
/// branch and persist a fresh assistant message answering it, derived from
/// its content. Fails as not found when the branch cannot be resolved or
/// holds no user message.
pub fn chat_regenerate(
    store: &mut TimelineStore,
    chat_id: &String,
    branch_id: Option<String>,
) -> (r: Result<Vec<ChatMessage>, EngineError>)
    ensures
        match r {
            Result::Err(e) => {
                &&& e == EngineError::NotFound
                &&& final(store)@ == old(store)@
                &&& (match resolved_branch_id(old(store)@.branches, chat_id@, opt_view(branch_id)) {
                    Option::None => true,
                    Option::Some(b) => last_user_of(old(store)@.rows, chat_id@, b) is None,
                })
            },
            Result::Ok(tl) => {
                &&& (match resolved_branch_id(old(store)@.branches, chat_id@, opt_view(branch_id)) {
                    Option::None => false,
                    Option::Some(b) => last_user_of(old(store)@.rows, chat_id@, b)
                        matches Option::Some(u) && {
                        &&& final(store)@.chats == old(store)@.chats
                        &&& final(store)@.branches == old(store)@.branches
                        &&& final(store)@.rows.len() == old(store)@.rows.len() + 1
                        &&& final(store)@.rows.drop_last() == old(store)@.rows
                        &&& ({
                            let m = final(store)@.rows.last();
                            &&& !m.deleted
                            &&& m.message.chat_id == chat_id@
                            &&& m.message.branch_id == b
                            &&& m.message.role == "assistant"@
                            &&& m.message.content == "[Regenerated] "@ + u.content
                            &&& m.message.token_count == spec_token_count(
                                "[Regenerated] "@ + u.content,
                            )
                            &&& m.message.parent_id == Option::Some(u.id)
                        })
                        &&& msgs_view(tl@) == timeline_of(final(store)@.rows, chat_id@, b)
                    },
                })
            },
        },
{
    let branch = match store.resolve_branch(chat_id, branch_id) {
        Result::Ok(b) => b,
        Result::Err(e) => {
            proof {
                assert(final(store)@ =~= old(store)@);
            }
            return Result::Err(e);
        },
    };
    let last_user = match store.last_user_message(chat_id, &branch) {
        Option::Some(m) => m,
        Option::None => {
            proof {
                assert(final(store)@ =~= old(store)@);
            }
            return Result::Err(EngineError::NotFound);
        },
    };
    let regenerated = concat_strs("[Regenerated] ", last_user.content.as_str());
    let token_count = rough_token_count(regenerated.as_str());
    let msg = ChatMessage {
        id: fresh_id(),
        chat_id: chat_id.clone(),
        branch_id: branch.clone(),
        role: "assistant".to_owned(),
        content: regenerated,
        token_count,
        created_at: now_rfc3339(),
        parent_id: Option::Some(last_user.id),
    };
    store.insert_message(msg);
    proof {
        assert(final(store)@.rows.drop_last() =~= old(store)@.rows);
    }
    Result::Ok(store.timeline(chat_id, &branch))
}


/// The first line of a content text, as a line-splitting read yields it:
/// up to the first newline, with a carriage return before that newline
/// stripped; the whole text when there is no newline.
pub open spec fn first_line_of(s: Seq<char>) -> Seq<char> {
    if find_nl(s) >= 0 {
        let l = s.subrange(0, find_nl(s));
        if l.len() > 0 && l.last() == '\r' {
            l.drop_last()
        } else {
            l
        }
    } else {
        s
    }
}

/// One digest entry: the message's role, a separator, and the first line
/// of its content.
pub open spec fn entry_of(m: ChatMessageView) -> Seq<char> {
    m.role + seq![':', ' '] + first_line_of(m.content)
}

/// The digest entries of a timeline: its last messages — at most eight —
/// newest first.
pub open spec fn compress_entries(tl: Seq<ChatMessageView>) -> Seq<Seq<char>> {
    Seq::new(
        if tl.len() < 8 {
            tl.len()
        } else {
            8
        },
        |j: int| entry_of(tl[tl.len() - 1 - j]),
    )
}

/// Entries joined by newlines.
pub open spec fn join_nl(es: Seq<Seq<char>>) -> Seq<char>
    decreases es.len(),
{
    if es.len() == 0 {
        Seq::<char>::empty()
    } else if es.len() == 1 {
        es[0]
    } else {
        es[0] + seq!['\n'] + join_nl(es.drop_first())
    }
}

/// The short digest of a timeline's recent messages.
pub open spec fn compress_of(tl: Seq<ChatMessageView>) -> Seq<char> {
    join_nl(compress_entries(tl))
}

proof fn lemma_join_nl_push(es: Seq<Seq<char>>, e: Seq<char>)
    ensures
        join_nl(es.push(e)) == if es.len() == 0 {
            e
        } else {
            join_nl(es) + seq!['\n'] + e
        },
    decreases es.len(),
{
    let t = es.push(e);
    if es.len() == 0 {
        assert(t.len() == 1);
        assert(join_nl(t) == t[0]);
        assert(t[0] == e);
    } else if es.len() == 1 {
        assert(t.len() == 2);
        assert(t.drop_first() =~= Seq::<Seq<char>>::empty().push(e));
        assert(join_nl(t.drop_first()) == e);
        assert(join_nl(t) == t[0] + seq!['\n'] + e);
        assert(t[0] == es[0]);
        assert(join_nl(es) == es[0]);
    } else {
        assert(t.drop_first() =~= es.drop_first().push(e));
        lemma_join_nl_push(es.drop_first(), e);
        assert(join_nl(t) == t[0] + seq!['\n'] + (join_nl(es.drop_first()) + seq!['\n'] + e));
        assert(t[0] == es[0]);
        assert(join_nl(es) == es[0] + seq!['\n'] + join_nl(es.drop_first()));
        assert(es[0] + seq!['\n'] + (join_nl(es.drop_first()) + seq!['\n'] + e) =~= (es[0]
            + seq!['\n'] + join_nl(es.drop_first())) + seq!['\n'] + e);
    }
}

fn first_line_chars(content: &String) -> (r: Vec<char>)
    ensures
        r@ == first_line_of(content@),
{
    let cc = string_chars(content.as_str());
    let cl = cc.len();
    let mut pos: usize = 0;
    while pos < cl && cc[pos] != '\n'
        invariant
            cl == cc@.len(),
            0 <= pos <= cl,
            forall|j: int| 0 <= j < pos ==> cc@[j] != '\n',
        decreases cl - pos,
    {
        pos = pos + 1;
    }
    let end: usize = if pos < cl {
        proof {
            lemma_find_nl_at(cc@, pos as int);
        }
        if pos > 0 && cc[pos - 1] == '\r' {
            pos - 1
        } else {
            pos
        }
    } else {
        proof {
            lemma_find_nl_none(cc@);
        }
        cl
    };
    let mut out: Vec<char> = Vec::new();
    let mut i: usize = 0;
    while i < end
        invariant
            end <= cl,
            cl == cc@.len(),
            0 <= i <= end,
            out@ == cc@.subrange(0, i as int),
        decreases end - i,
    {
        out.push(cc[i]);
        assert(out@ =~= cc@.subrange(0, i + 1 as int));
        i = i + 1;
    }
    proof {
        if find_nl(content@) >= 0 {
            let l = content@.subrange(0, find_nl(content@));
            if l.len() > 0 && l.last() == '\r' {
                assert(l.drop_last() =~= cc@.subrange(0, end as int));
            } else {
                assert(l =~= cc@.subrange(0, end as int));
            }
        } else {
            assert(content@ =~= cc@.subrange(0, end as int));
        }
    }
    out
}

/// Produce the short digest of the timeline's recent messages: for each of
/// the last messages — at most eight, newest first — its role and the
/// first line of its content, joined by newlines. A separate, explicitly
/// invoked utility; the turn path itself never truncates.
pub fn chat_compress_context(
    store: &TimelineStore,
    chat_id: &String,
    branch_id: Option<String>,
) -> (r: Result<String, EngineError>)
    ensures
        match r {
            Result::Ok(s) => resolved_branch_id(store@.branches, chat_id@, opt_view(branch_id))
                matches Option::Some(b) && s@ == compress_of(
                timeline_of(store@.rows, chat_id@, b),
            ),
            Result::Err(e) => e == EngineError::NotFound && resolved_branch_id(
                store@.branches,
                chat_id@,
                opt_view(branch_id),
            ) is None,
        },
{
    let tl = match chat_get_timeline(store, chat_id, branch_id) {
        Result::Ok(t) => t,
        Result::Err(e) => {
            return Result::Err(e);
        },
    };
    let ghost tlv = msgs_view(tl@);
    let ghost es = compress_entries(tlv);
    let n = tl.len();
    let count: usize = if n < 8 {
        n
    } else {
        8
    };
    let mut out: Vec<char> = Vec::new();
    let mut t: usize = 0;
    proof {
        assert(es.subrange(0, 0) =~= Seq::<Seq<char>>::empty());
    }
    while t < count
        invariant
            n == tl@.len(),
            tlv == msgs_view(tl@),
            es == compress_entries(tlv),
            count as int == (if tlv.len() < 8 {
                tlv.len() as int
            } else {
                8
            }),
            count <= n,
            0 <= t <= count,
            out@ == join_nl(es.subrange(0, t as int)),
        decreases count - t,
    {
        let ghost o0 = out@;
        if t > 0 {
            out.push('\n');
        }
        let ghost o1 = out@;
        let m = &tl[n - 1 - t];
        proof {
            assert(tlv[n - 1 - t] == tl@[n - 1 - t]@);
        }
        let mut rc = string_chars(m.role.as_str());
        out.append(&mut rc);
        out.push(':');
        out.push(' ');
        let mut fl = first_line_chars(&m.content);
        out.append(&mut fl);
        proof {
            let mv = tlv[n - 1 - t];
            assert(out@ =~= o1 + entry_of(mv));
            assert(es[t as int] == entry_of(mv));
            let pre = es.subrange(0, t as int);
            let cur = es.subrange(0, t + 1 as int);
            assert(cur =~= pre.push(es[t as int]));
            lemma_join_nl_push(pre, es[t as int]);
            if t > 0 {
                assert(o1 =~= o0 + seq!['\n']);
                assert(out@ =~= (o0 + seq!['\n']) + entry_of(mv));
                assert((join_nl(pre) + seq!['\n']) + entry_of(mv) =~= join_nl(pre) + seq!['\n']
                    + entry_of(mv));
            } else {
                assert(pre.len() == 0);
                assert(o1 =~= Seq::<char>::empty());
                assert(out@ =~= entry_of(mv));
            }
            assert(out@ =~= join_nl(cur));
        }
        t = t + 1;
    }
    proof {
        assert(es.subrange(0, count as int) =~= es);
    }
    Result::Ok(crate::text::chars_to_string(&out))
}

} // verus!
