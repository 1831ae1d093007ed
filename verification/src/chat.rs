//! The `ask` command's conversation handling: which recent channel messages
//! form the history handed to the model, and how a long answer is split
//! into Discord-sized messages.

use vstd::prelude::*;
use vstd::string::*;
use crate::text::{chars_of, push_all, starts_with, starts_with_str, string_of, sub_chars, trim_chars, trim_seq};

verus! {

broadcast use vstd::string::group_string_axioms;

/// A message of the channel, as the history selection reads it.
pub struct ChannelMessage {
    pub id: u64,
    pub content: String,
    pub author_id: u64,
    pub author_is_bot: bool,
    /// The author of the message this one replies to, if any.
    pub replied_to_author: Option<u64>,
}

/// Whether `c` starts with one of the prefixes of the `ask` command.
pub open spec fn is_ask_invocation(c: Seq<char>) -> bool {
    starts_with(c, "-ask "@) || starts_with(c, "-a "@) || starts_with(c, "/ask "@)
}

/// Whether message `m` belongs to the history of `user`'s conversation:
/// not the invoking message, not empty, an `ask` invocation unless a bot
/// wrote it, and written by the user or by a bot replying to the user.
pub open spec fn in_history(m: ChannelMessage, current: Option<u64>, user: u64) -> bool {
    &&& Some(m.id) != current
    &&& m.content@.len() > 0
    &&& (m.author_is_bot || is_ask_invocation(m.content@))
    &&& (m.author_id == user || (m.author_is_bot && m.replied_to_author == Some(user)))
}

/// The text of a history entry: a user's message loses its command prefix;
/// both are trimmed.
pub open spec fn history_text(m: ChannelMessage) -> Seq<char> {
    let c = m.content@;
    let stripped = if m.author_is_bot {
        c
    } else if starts_with(c, "-ask "@) {
        c.skip(5)
    } else if starts_with(c, "-a "@) {
        c.skip(3)
    } else if starts_with(c, "/ask "@) {
        c.skip(5)
    } else {
        c
    };
    trim_seq(stripped)
}

/// The entries, in the order of `msgs`, of the messages that belong to the
/// history: whether a bot wrote it, and its text.
pub open spec fn history_entries(msgs: Seq<ChannelMessage>, current: Option<u64>, user: u64) -> Seq<
    (bool, Seq<char>),
>
    decreases msgs.len(),
{
    if msgs.len() == 0 {
        Seq::empty()
    } else {
        let rest = history_entries(msgs.drop_last(), current, user);
        let m = msgs.last();
        if in_history(m, current, user) {
            rest.push((m.author_is_bot, history_text(m)))
        } else {
            rest
        }
    }
}

/// The history handed to the model: of `msgs` (newest first), the first ten
/// entries, oldest first.
pub open spec fn conversation(msgs: Seq<ChannelMessage>, current: Option<u64>, user: u64) -> Seq<
    (bool, Seq<char>),
> {
    let e = history_entries(msgs, current, user);
    e.take(if e.len() < 10 {
        e.len() as int
    } else {
        10
    }).reverse()
}

/// Each entry of the history comes from a message of `msgs` that belongs
/// to it.
proof fn lemma_entries_from(msgs: Seq<ChannelMessage>, current: Option<u64>, user: u64, k: int)
    requires
        0 <= k < history_entries(msgs, current, user).len(),
    ensures
        exists|j: int|
            0 <= j < msgs.len() && in_history(#[trigger] msgs[j], current, user)
                && history_entries(msgs, current, user)[k] == (msgs[j].author_is_bot, history_text(
                msgs[j],
            )),
    decreases msgs.len(),
{
    let rest = history_entries(msgs.drop_last(), current, user);
    if k < rest.len() {
        lemma_entries_from(msgs.drop_last(), current, user, k);
        let j = choose|j: int|
            0 <= j < msgs.drop_last().len() && in_history(#[trigger] msgs.drop_last()[j], current, user)
                && rest[k] == (msgs.drop_last()[j].author_is_bot, history_text(msgs.drop_last()[j]));
        assert(msgs[j] == msgs.drop_last()[j]);
    } else {
        assert(msgs[msgs.len() - 1] == msgs.last());
    }
}

/// The conversation handed to the model is the user's: each entry comes
/// from a message of `msgs` other than the invoking one, a user entry
/// (`false`) from a message the user wrote, and a bot entry from a bot's
/// message written by the user or replying to the user; the text is that
/// message's.
pub proof fn lemma_conversation_is_users(msgs: Seq<ChannelMessage>, current: Option<u64>, user: u64, i: int)
    requires
        0 <= i < conversation(msgs, current, user).len(),
    ensures
        exists|j: int|
            0 <= j < msgs.len() && #[trigger] msgs[j].author_is_bot == conversation(
                msgs,
                current,
                user,
            )[i].0 && history_text(msgs[j]) == conversation(msgs, current, user)[i].1
                && Some(msgs[j].id) != current && (!msgs[j].author_is_bot ==> msgs[j].author_id
                == user) && (msgs[j].author_is_bot ==> (msgs[j].author_id == user
                || msgs[j].replied_to_author == Some(user))),
        conversation(msgs, current, user).len() <= 10,
{
    let e = history_entries(msgs, current, user);
    let n: int = if e.len() < 10 {
        e.len() as int
    } else {
        10
    };
    let c = conversation(msgs, current, user);
    assert(c == e.take(n).reverse());
    let k = n - 1 - i;
    assert(c[i] == e[k]);
    lemma_entries_from(msgs, current, user, k);
    let j = choose|j: int|
        0 <= j < msgs.len() && in_history(#[trigger] msgs[j], current, user) && e[k] == (
        msgs[j].author_is_bot,
        history_text(msgs[j]),
    );
    assert(msgs[j].author_is_bot == c[i].0);
}

/// The view of a list of history entries.
pub open spec fn entries_view(v: Seq<(bool, String)>) -> Seq<(bool, Seq<char>)> {
    v.map_values(|e: (bool, String)| (e.0, e.1@))
}

fn entry_of(m: &ChannelMessage) -> (r: (bool, String))
    ensures
        r.0 == m.author_is_bot,
        r.1@ == history_text(*m),
{
    let c = chars_of(m.content.as_str());
    let stripped: Vec<char> = if m.author_is_bot {
        c
    } else if starts_with_str(c.as_slice(), "-ask ") {
        proof { reveal_strlit("-ask "); }
        sub_chars(c.as_slice(), 5, c.len())
    } else if starts_with_str(c.as_slice(), "-a ") {
        proof { reveal_strlit("-a "); }
        sub_chars(c.as_slice(), 3, c.len())
    } else if starts_with_str(c.as_slice(), "/ask ") {
        proof { reveal_strlit("/ask "); }
        sub_chars(c.as_slice(), 5, c.len())
    } else {
        c
    };
    let t = trim_chars(stripped.as_slice());
    (m.author_is_bot, string_of(t.as_slice()))
}

fn is_in_history(m: &ChannelMessage, current: Option<u64>, user: u64) -> (b: bool)
    ensures
        b == in_history(*m, current, user),
{
    let same = match current {
        Some(id) => id == m.id,
        None => false,
    };
    if same || m.content.as_str().is_empty() {
        return false;
    }
    let c = chars_of(m.content.as_str());
    if !m.author_is_bot && !(starts_with_str(c.as_slice(), "-ask ") || starts_with_str(
        c.as_slice(),
        "-a ",
    ) || starts_with_str(c.as_slice(), "/ask ")) {
        return false;
    }
    let replies_to_user = match m.replied_to_author {
        Some(a) => a == user,
        None => false,
    };
    m.author_id == user || (m.author_is_bot && replies_to_user)
}

/// Selects the conversation history for `user` from the channel's recent
/// messages `msgs` (newest first), leaving out the invoking message
/// `current`: at most ten entries, oldest first.
pub fn select_history(msgs: &Vec<ChannelMessage>, current: Option<u64>, user: u64) -> (r: Vec<
    (bool, String),
>)
    ensures
        entries_view(r@) == conversation(msgs@, current, user),
{
    let mut all: Vec<(bool, String)> = Vec::new();
    let mut i: usize = 0;
    while i < msgs.len()
        invariant
            i <= msgs@.len(),
            entries_view(all@) == history_entries(msgs@.take(i as int), current, user),
        decreases msgs@.len() - i,
    {
        let m = &msgs[i];
        assert(msgs@.take(i + 1).drop_last() == msgs@.take(i as int));
        assert(msgs@.take(i + 1).last() == *m);
        if is_in_history(m, current, user) {
            let e = entry_of(m);
            let ghost before = entries_view(all@);
            all.push(e);
            assert(entries_view(all@) =~= before.push((m.author_is_bot, history_text(*m))));
        }
        i += 1;
    }
    assert(msgs@.take(msgs@.len() as int) == msgs@);
    let ghost e = entries_view(all@);
    let k: usize = if all.len() < 10 {
        all.len()
    } else {
        10
    };
    let mut r: Vec<(bool, String)> = Vec::new();
    let mut j: usize = k;
    while j > 0
        invariant
            j <= k <= all@.len(),
            e == entries_view(all@),
            entries_view(r@) =~= e.take(k as int).reverse().take((k - j) as int),
        decreases j,
    {
        j -= 1;
        let (b, t) = &all[j];
        let ghost before = entries_view(r@);
        r.push((*b, t.clone()));
        assert(entries_view(r@) =~= before.push(e[j as int]));
        assert(e.take(k as int).reverse().take((k - j) as int) =~= e.take(k as int).reverse().take(
            (k - j - 1) as int,
        ).push(e[j as int]));
    }
    assert(e.take(k as int).reverse().take(k as int) =~= e.take(k as int).reverse());
    r
}

/// The most characters one reply message carries.
pub const REPLY_CHUNK_CHARS: usize = 1900;

/// `s` cut into consecutive pieces of `n` characters, the last one shorter.
pub open spec fn chunks_of(s: Seq<char>, n: nat) -> Seq<Seq<char>>
    decreases s.len(),
{
    if s.len() == 0 || n == 0 {
        Seq::empty()
    } else if s.len() <= n {
        seq![s]
    } else {
        seq![s.take(n as int)] + chunks_of(s.skip(n as int), n)
    }
}

/// The concatenation of the pieces `parts`.
pub open spec fn joined(parts: Seq<Seq<char>>) -> Seq<char>
    decreases parts.len(),
{
    if parts.len() == 0 {
        Seq::empty()
    } else {
        joined(parts.drop_last()) + parts.last()
    }
}

/// Joining a piece put in front of others gives that piece, then the others
/// joined.
proof fn lemma_joined_prepend(p: Seq<char>, parts: Seq<Seq<char>>)
    ensures
        joined(seq![p] + parts) == p + joined(parts),
    decreases parts.len(),
{
    if parts.len() == 0 {
        assert(seq![p] + parts == seq![p]);
        assert(seq![p].drop_last() == Seq::<Seq<char>>::empty());
        assert(p + Seq::<char>::empty() == p);
        assert(Seq::<char>::empty() + p == p);
        assert(joined(Seq::<Seq<char>>::empty()) == Seq::<char>::empty());
        assert(joined(seq![p]) == joined(seq![p].drop_last()) + seq![p].last());
    } else {
        lemma_joined_prepend(p, parts.drop_last());
        assert((seq![p] + parts).drop_last() == seq![p] + parts.drop_last());
        assert((seq![p] + parts).last() == parts.last());
        assert((p + joined(parts.drop_last())) + parts.last() == p + (joined(parts.drop_last())
            + parts.last()));
    }
}

/// Splitting a text into reply pieces loses nothing and reorders nothing:
/// the pieces, joined, are the text; each holds between one and `n`
/// characters.
pub proof fn lemma_chunks_of(s: Seq<char>, n: nat)
    requires
        n > 0,
    ensures
        joined(chunks_of(s, n)) == s,
        forall|k: int|
            0 <= k < chunks_of(s, n).len() ==> 0 < (#[trigger] chunks_of(s, n)[k]).len() <= n,
    decreases s.len(),
{
    if s.len() == 0 {
    } else if s.len() <= n {
        assert(seq![s].drop_last() == Seq::<Seq<char>>::empty());
        assert(Seq::<char>::empty() + s == s);
        assert(joined(Seq::<Seq<char>>::empty()) == Seq::<char>::empty());
        assert(joined(seq![s]) == joined(seq![s].drop_last()) + seq![s].last());
    } else {
        lemma_chunks_of(s.skip(n as int), n);
        lemma_joined_prepend(s.take(n as int), chunks_of(s.skip(n as int), n));
        assert(s.take(n as int) + s.skip(n as int) == s);
        let c = chunks_of(s, n);
        assert forall|k: int| 0 <= k < c.len() implies 0 < (#[trigger] c[k]).len() <= n by {
            if k > 0 {
                assert(c[k] == chunks_of(s.skip(n as int), n)[k - 1]);
            }
        }
    }
}

/// Cuts the model's answer into messages of at most `REPLY_CHUNK_CHARS`
/// characters, in order.
pub fn split_reply(text: &str) -> (r: Vec<String>)
    ensures
        r@.map_values(|p: String| p@) == chunks_of(text@, REPLY_CHUNK_CHARS as nat),
{
    let cs = chars_of(text);
    let n = cs.len();
    let mut r: Vec<String> = Vec::new();
    let mut i: usize = 0;
    assert(cs@.skip(0) == cs@);
    assert(r@.map_values(|p: String| p@) + chunks_of(cs@, REPLY_CHUNK_CHARS as nat) =~= chunks_of(
        cs@,
        REPLY_CHUNK_CHARS as nat,
    ));
    while i < n
        invariant
            i <= n,
            n == cs@.len(),
            cs@ == text@,
            chunks_of(text@, REPLY_CHUNK_CHARS as nat) == r@.map_values(|p: String| p@) + chunks_of(
                cs@.skip(i as int),
                REPLY_CHUNK_CHARS as nat,
            ),
        decreases n - i,
    {
        let end: usize = if n - i <= REPLY_CHUNK_CHARS {
            n
        } else {
            i + REPLY_CHUNK_CHARS
        };
        let piece = sub_chars(cs.as_slice(), i, end);
        let ghost rest = cs@.skip(i as int);
        assert(piece@ == rest.take((end - i) as int));
        assert(rest.skip((end - i) as int) == cs@.skip(end as int));
        let ghost before = r@.map_values(|p: String| p@);
        r.push(string_of(piece.as_slice()));
        assert(r@.map_values(|p: String| p@) =~= before.push(piece@));
        if n - i <= REPLY_CHUNK_CHARS {
            assert(piece@ == rest);
            assert(cs@.skip(end as int).len() == 0);
            assert(chunks_of(cs@.skip(end as int), REPLY_CHUNK_CHARS as nat) =~= Seq::empty());
            assert(before + chunks_of(rest, REPLY_CHUNK_CHARS as nat) =~= before.push(piece@) + Seq::empty());
        } else {
            assert(before + chunks_of(rest, REPLY_CHUNK_CHARS as nat) =~= before.push(piece@)
                + chunks_of(cs@.skip(end as int), REPLY_CHUNK_CHARS as nat));
        }
        i = end;
    }
    assert(chunks_of(cs@.skip(n as int), REPLY_CHUNK_CHARS as nat) =~= Seq::empty());
    assert(r@.map_values(|p: String| p@) + Seq::<Seq<char>>::empty() =~= r@.map_values(|p: String| p@));
    r
}

} // verus!
