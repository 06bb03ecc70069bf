//! Who is signed in.

use vstd::prelude::*;
use vstd::string::*;

use crate::outside;
use crate::table;
use crate::table::OrderedTable;
use crate::text;

verus! {

/// How long a session lasts, in nanoseconds: 24 hours.
pub const SESSION_TTL: i128 = 86_400_000_000_000;

/// The sessions: a token for each, and when it expires.
#[derive(Debug)]
pub struct Sessions {
    tokens: OrderedTable<i128>,
}

impl View for Sessions {
    type V = Map<Seq<char>, i128>;

    closed spec fn view(&self) -> Map<Seq<char>, i128> {
        self.tokens@
    }
}

/// The sessions that have not expired.
pub open spec fn live(sessions: Map<Seq<char>, i128>, now: i128) -> Map<Seq<char>, i128> {
    sessions.restrict(Set::new(|token: Seq<char>| sessions[token] > now))
}

/// The sessions after one more began.
pub open spec fn with_session(
    sessions: Map<Seq<char>, i128>,
    token: Seq<char>,
    now: i128,
) -> Map<Seq<char>, i128> {
    live(sessions, now).insert(token, (now + SESSION_TTL) as i128)
}

/// A token that is drawn at random: 48 letters and digits of ASCII.
pub open spec fn is_token(token: Seq<char>) -> bool {
    &&& token.len() == 48
    &&& forall|i: int| 0 <= i < token.len() ==> text::is_alphanumeric(#[trigger] token[i])
}

impl Default for Sessions {
    fn default() -> (sessions: Self)
        ensures
            sessions@ == Map::<Seq<char>, i128>::empty(),
    {
        Sessions { tokens: OrderedTable::new() }
    }
}

impl Sessions {
    /// Nobody is signed in.
    pub fn new() -> (sessions: Sessions)
        ensures
            sessions@ == Map::<Seq<char>, i128>::empty(),
    {
        Sessions::default()
    }

    /// Forgets the sessions that have expired.
    fn prune(&mut self, now: i128)
        ensures
            final(self)@ == live(old(self)@, now),
    {
        let mut kept: OrderedTable<i128> = OrderedTable::new();
        let count: usize = self.tokens.len();
        let ghost pairs = self.tokens.pairs();
        proof {
            assert(kept@ =~= live(table::spelled_map(pairs.take(0)), now));
        }
        for i in 0..count
            invariant
                count == pairs.len(),
                pairs == self.tokens.pairs(),
                table::keys_in_order(pairs),
                kept@ == live(table::spelled_map(pairs.take(i as int)), now),
        {
            let expires: i128 = *self.tokens.value(i);
            proof {
                lemma_key_is_new(pairs, i as int);
            }
            if expires > now {
                kept.insert(self.tokens.key(i).clone(), expires);
            }
            assert(kept@ =~= live(table::spelled_map(pairs.take(i + 1)), now));
        }
        assert(pairs.take(pairs.len() as int) == pairs);
        self.tokens = kept;
    }

    /// Begins a session under `token`, and forgets those that have expired.
    pub fn begin(&mut self, token: String, now: i128)
        requires
            now + SESSION_TTL <= i128::MAX,
        ensures
            final(self)@ == with_session(old(self)@, token@, now),
    {
        self.prune(now);
        let mut tokens: OrderedTable<i128> = OrderedTable::new();
        core::mem::swap(&mut tokens, &mut self.tokens);
        tokens.insert(token, now + SESSION_TTL);
        self.tokens = tokens;
    }

    /// Begins a session under a new token and returns the token, which is drawn at
    /// random at each call. Forgets the sessions that have expired.
    pub fn create(&mut self, now: i128) -> (token: String)
        requires
            now + SESSION_TTL <= i128::MAX,
        ensures
            is_token(token@),
            final(self)@ == with_session(old(self)@, token@, now),
    {
        let token: String = outside::random_alphanumeric(48);
        self.begin(token.clone(), now);
        token
    }

    /// Whether `token` is that of a session at `now`. Forgets the sessions that have
    /// expired.
    pub fn is_valid(&mut self, token: &str, now: i128) -> (valid: bool)
        ensures
            final(self)@ == live(old(self)@, now),
            valid == live(old(self)@, now).contains_key(token@),
    {
        self.prune(now);
        self.tokens.get(token).is_some()
    }

    /// Ends the session of `token`, if there is one.
    pub fn remove(&mut self, token: &str)
        ensures
            final(self)@ == old(self)@.remove(token@),
    {
        let mut kept: OrderedTable<i128> = OrderedTable::new();
        let count: usize = self.tokens.len();
        let ghost pairs = self.tokens.pairs();
        proof {
            assert(kept@ =~= table::spelled_map(pairs.take(0)).remove(token@));
        }
        for i in 0..count
            invariant
                count == pairs.len(),
                pairs == self.tokens.pairs(),
                table::keys_in_order(pairs),
                kept@ == table::spelled_map(pairs.take(i as int)).remove(token@),
        {
            let expires: i128 = *self.tokens.value(i);
            proof {
                lemma_key_is_new(pairs, i as int);
            }
            if !text::same_text(self.tokens.key(i).as_str(), token) {
                kept.insert(self.tokens.key(i).clone(), expires);
            }
            assert(kept@ =~= table::spelled_map(pairs.take(i + 1)).remove(token@));
        }
        assert(pairs.take(pairs.len() as int) == pairs);
        self.tokens = kept;
    }
}

proof fn lemma_key_is_new(pairs: Seq<(Seq<char>, i128)>, i: int)
    requires
        table::keys_in_order(pairs),
        0 <= i < pairs.len(),
    ensures
        !table::spelled_map(pairs.take(i)).contains_key(pairs[i].0),
        table::spelled_map(pairs.take(i + 1)) == table::spelled_map(pairs.take(i)).insert(
            pairs[i].0,
            pairs[i].1,
        ),
{
    assert(pairs.take(i + 1).drop_last() == pairs.take(i));
    table::lemma_spelled_map(pairs.take(i));
    if table::spelled_map(pairs.take(i)).contains_key(pairs[i].0) {
        let j = choose|j: int|
            0 <= j < pairs.take(i).len() && (#[trigger] pairs.take(i)[j]).0 == pairs[i].0;
        assert(table::text_before(pairs[j].0, pairs[i].0));
        table::lemma_text_order(pairs[i].0, pairs[i].0);
    }
}

/// A session is valid for exactly 24 hours from its beginning on.
pub proof fn law_session_lasts_a_day(
    sessions: Map<Seq<char>, i128>,
    token: Seq<char>,
    start: i128,
    now: i128,
)
    requires
        start + SESSION_TTL <= i128::MAX,
    ensures
        live(with_session(sessions, token, start), now).contains_key(token) <==> now < start
            + SESSION_TTL,
{
}

/// A session that was ended is not valid any more, and no other session is touched.
pub proof fn law_ended_session_is_not_valid(
    sessions: Map<Seq<char>, i128>,
    token: Seq<char>,
    other: Seq<char>,
    now: i128,
)
    ensures
        !live(sessions.remove(token), now).contains_key(token),
        other != token ==> live(sessions.remove(token), now).contains_key(other) == live(
            sessions,
            now,
        ).contains_key(other),
{
}

/// A new session leaves the others as they are, and looking one up does too.
pub proof fn law_sessions_are_independent(
    sessions: Map<Seq<char>, i128>,
    token: Seq<char>,
    other: Seq<char>,
    start: i128,
    now: i128,
)
    requires
        start <= now,
        other != token,
    ensures
        live(with_session(sessions, token, start), now).contains_key(other) == live(
            sessions,
            now,
        ).contains_key(other),
        live(live(sessions, start), now) == live(sessions, now),
{
    assert(live(live(sessions, start), now) =~= live(sessions, now));
}

/// At the start nobody is signed in.
pub proof fn law_nobody_is_signed_in_at_the_start(token: Seq<char>, now: i128)
    ensures
        !live(Map::<Seq<char>, i128>::empty(), now).contains_key(token),
{
}

/// A session lasts 24 hours: a nanosecond before its end it is valid, from then on it
/// is not, and the time that it ends at is the only thing that matters.
pub proof fn law_session_ends_after_24_hours(
    sessions: Map<Seq<char>, i128>,
    token: Seq<char>,
    start: i128,
    now: i128,
)
    requires
        start + 24 * 60 * 60 * 1_000_000_000 <= i128::MAX,
    ensures
        with_session(sessions, token, start).contains_key(token),
        with_session(sessions, token, start)[token] == start + 24 * 60 * 60 * 1_000_000_000,
        live(with_session(sessions, token, start), now).contains_key(token) <==> now < start + 24
            * 60 * 60 * 1_000_000_000,
{
}

/// A session is live exactly if it is there and ends later than now, and looking it
/// up does not move its end.
pub proof fn law_live_sessions_end_later(
    sessions: Map<Seq<char>, i128>,
    token: Seq<char>,
    now: i128,
)
    ensures
        live(sessions, now).contains_key(token) <==> sessions.contains_key(token)
            && sessions[token] > now,
        live(sessions, now).contains_key(token) ==> live(sessions, now)[token]
            == sessions[token],
{
}

/// A token is forty-eight letters and digits of ASCII.
pub proof fn law_token_is_forty_eight_characters(token: Seq<char>, i: int)
    requires
        is_token(token),
        0 <= i < token.len(),
    ensures
        token.len() == 48,
        ('a' <= token[i] <= 'z') || ('A' <= token[i] <= 'Z') || ('0' <= token[i] <= '9'),
{
    assert(text::is_alphanumeric(token[i]));
}

/// Sessions that have ended are forgotten when one begins and when one is looked up.
pub proof fn law_ended_sessions_are_forgotten(
    sessions: Map<Seq<char>, i128>,
    token: Seq<char>,
    other: Seq<char>,
    now: i128,
)
    requires
        now + SESSION_TTL <= i128::MAX,
    ensures
        with_session(sessions, token, now).contains_key(other) ==> with_session(
            sessions,
            token,
            now,
        )[other] > now,
        live(sessions, now).contains_key(other) ==> live(sessions, now)[other] > now,
{
}

} // verus!
