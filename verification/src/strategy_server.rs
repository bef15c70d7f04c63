use vstd::prelude::*;
use std::collections::HashMap;
use rand::rngs::ThreadRng;
use rand::Rng;
use crate::proto::SendParcel;
use crate::strategy::TradeState;

verus! {

broadcast use vstd::std_specs::hash::group_hash_axioms;

// ---------------------------------------------------------------------------
// Sessions
// ---------------------------------------------------------------------------

/// `rand::rngs::ThreadRng`, carried through opaque.
#[verifier::external_type_specification]
#[verifier::external_body]
pub struct ExThreadRng(ThreadRng);

/// `rand::thread_rng`: the generator of this thread.
#[verifier::external_body]
fn thread_rng() -> (rng: ThreadRng) {
    rand::thread_rng()
}

/// `Rng::gen::<u32>`: a random number; nothing is stated of which.
#[verifier::external_body]
fn gen_u32(rng: &mut ThreadRng) -> (n: u32) {
    rng.gen::<u32>()
}

/// The websocket sessions that the server pushes its parcels to, each under
/// the identifier it was given when it connected.
pub struct StrategyServer<R> {
    sessions: HashMap<usize, R>,
    rng: ThreadRng,
}

impl<R> View for StrategyServer<R> {
    type V = Map<usize, R>;

    closed spec fn view(&self) -> Map<usize, R> {
        self.sessions@
    }
}

impl<R> Default for StrategyServer<R> {
    /// A server with no session.
    fn default() -> (res: Self)
        ensures
            res@ == Map::<usize, R>::empty(),
    {
        StrategyServer::new()
    }
}

/// A session that connects under an identifier no other session holds, and
/// then disconnects, leaves the other sessions as they were.
pub proof fn lemma_connect_then_disconnect<R>(sessions: Map<usize, R>, id: usize, addr: R)
    requires
        !sessions.contains_key(id),
    ensures
        sessions.insert(id, addr).remove(id) == sessions,
{
    assert(sessions.insert(id, addr).remove(id) =~= sessions);
}

/// A connect under a fresh identifier adds one session and keeps every
/// earlier one; two such connects in a row hold distinct identifiers, and
/// both sessions stay registered.
pub proof fn lemma_fresh_connects_keep_sessions<R>(
    sessions: Map<usize, R>,
    id1: usize,
    addr1: R,
    id2: usize,
    addr2: R,
)
    requires
        sessions.dom().finite(),
        !sessions.contains_key(id1),
        !sessions.insert(id1, addr1).contains_key(id2),
    ensures
        id1 != id2,
        sessions.insert(id1, addr1).len() == sessions.len() + 1,
        sessions.insert(id1, addr1).insert(id2, addr2).len() == sessions.len() + 2,
        sessions.insert(id1, addr1).insert(id2, addr2)[id1] == addr1,
        sessions.insert(id1, addr1).insert(id2, addr2)[id2] == addr2,
        forall|k: usize|
            #[trigger] sessions.contains_key(k) ==> sessions.insert(id1, addr1).insert(
                id2,
                addr2,
            )[k] == sessions[k],
{
    assert(sessions.insert(id1, addr1).dom() =~= sessions.dom().insert(id1));
    assert(sessions.insert(id1, addr1).insert(id2, addr2).dom() =~= sessions.dom().insert(
        id1,
    ).insert(id2));
}

impl<R> StrategyServer<R> {
    /// A server with no session.
    pub fn new() -> (res: Self)
        ensures
            res@ == Map::<usize, R>::empty(),
    {
        StrategyServer { sessions: HashMap::new(), rng: thread_rng() }
    }

    /// Registers `addr` under `id`; a session that held `id` before is
    /// replaced.
    pub fn connect_with_id(&mut self, id: u32, addr: R) -> (res: usize)
        ensures
            res == id,
            final(self)@ == old(self)@.insert(res, addr),
    {
        let key = id as usize;
        self.sessions.insert(key, addr);
        key
    }

    /// Registers `addr` under a random identifier that no session holds,
    /// which it returns: a drawn identifier that is taken is replaced by the
    /// smallest free one. Only when every identifier is taken is one reused.
    pub fn connect(&mut self, addr: R) -> (res: usize)
        ensures
            res <= u32::MAX,
            final(self)@ == old(self)@.insert(res, addr),
            !old(self)@.contains_key(res) || (forall|i: usize|
                i <= u32::MAX ==> old(self)@.contains_key(i)),
    {
        let ghost m = self@;
        let mut id: u32 = gen_u32(&mut self.rng);
        if self.sessions.contains_key(&(id as usize)) {
            let mut i: u64 = 0;
            let mut found = false;
            while i <= u32::MAX as u64
                invariant_except_break
                    !found,
                invariant
                    m == self@,
                    i <= u32::MAX as u64 + 1,
                    forall|j: usize| j < i ==> m.contains_key(j),
                ensures
                    m == self@,
                    found ==> id <= u32::MAX && !m.contains_key(id as usize),
                    !found ==> forall|j: usize| j <= u32::MAX ==> m.contains_key(j),
                decreases u32::MAX as u64 + 1 - i,
            {
                let key = i as usize;
                if !self.sessions.contains_key(&key) {
                    assert(!m.contains_key(key));
                    id = i as u32;
                    assert(id as usize == key);
                    found = true;
                    break;
                }
                i = i + 1;
            }
        }
        self.connect_with_id(id, addr)
    }

    /// Forgets the session under `id`, if there is one.
    pub fn disconnect(&mut self, id: usize)
        ensures
            final(self)@ == old(self)@.remove(id),
    {
        self.sessions.remove(&id);
    }

    /// The sessions, by identifier.
    pub fn sessions(&self) -> (res: &HashMap<usize, R>)
        ensures
            res@ == self@,
    {
        &self.sessions
    }
}


// ---------------------------------------------------------------------------
// The tail of the log
// ---------------------------------------------------------------------------

/// How many lines of the log a report shows at most.
pub const LOG_TAIL_LINES: usize = 32;

/// `String::push`: appends one character.
#[verifier::external_body]
fn push_char(s: &mut String, c: char)
    ensures
        final(s)@ == old(s)@.push(c),
{
    s.push(c)
}

/// The pieces of a text between its newlines: one more than it has newlines.
pub open spec fn newline_pieces(s: Seq<char>) -> Seq<Seq<char>>
    decreases s.len(),
{
    if s.len() == 0 {
        seq![seq![]]
    } else {
        let p = newline_pieces(s.drop_last());
        if s.last() == '\n' {
            p.push(seq![])
        } else {
            p.update(p.len() - 1, p.last().push(s.last()))
        }
    }
}

/// A line without the carriage return that ended it, if one did.
pub open spec fn strip_cr(line: Seq<char>) -> Seq<char> {
    if line.len() > 0 && line.last() == '\r' {
        line.drop_last()
    } else {
        line
    }
}

/// The lines of a text as `str::lines` reads them: split at each `\n`, a `\r`
/// just before it dropped, and no empty line after a final `\n`.
pub open spec fn text_lines(s: Seq<char>) -> Seq<Seq<char>> {
    let p = newline_pieces(s);
    let ended = p.drop_last().map_values(|l: Seq<char>| strip_cr(l));
    if p.last().len() == 0 {
        ended
    } else {
        ended.push(p.last())
    }
}

/// Lines, each followed by `\n`.
pub open spec fn join_lines(lines: Seq<Seq<char>>) -> Seq<char>
    decreases lines.len(),
{
    if lines.len() == 0 {
        seq![]
    } else {
        join_lines(lines.drop_last()) + lines.last() + seq!['\n']
    }
}

/// The last `LOG_TAIL_LINES` lines of a log (all of them if it has fewer),
/// in their order, each followed by `\n`.
pub open spec fn log_tail(log: Seq<char>) -> Seq<char> {
    let lines = text_lines(log);
    let k = if lines.len() < LOG_TAIL_LINES { lines.len() as int } else { LOG_TAIL_LINES as int };
    join_lines(lines.subrange(lines.len() - k, lines.len() as int))
}

/// A log of at most `LOG_TAIL_LINES` lines is reported whole.
pub proof fn lemma_short_log_whole(log: Seq<char>)
    requires
        text_lines(log).len() <= LOG_TAIL_LINES,
    ensures
        log_tail(log) == join_lines(text_lines(log)),
{
    let lines = text_lines(log);
    assert(lines.subrange(0, lines.len() as int) =~= lines);
}

/// A log of more than `LOG_TAIL_LINES` lines is reported by its last
/// `LOG_TAIL_LINES` lines: the oldest ones are left out.
pub proof fn lemma_long_log_last_lines(log: Seq<char>)
    requires
        text_lines(log).len() > LOG_TAIL_LINES,
    ensures
        log_tail(log) == join_lines(text_lines(log).skip(text_lines(log).len() - LOG_TAIL_LINES)),
        text_lines(log).skip(text_lines(log).len() - LOG_TAIL_LINES).len() == LOG_TAIL_LINES,
{
    let lines = text_lines(log);
    assert(lines.subrange(lines.len() - LOG_TAIL_LINES, lines.len() as int) =~= lines.skip(
        lines.len() - LOG_TAIL_LINES,
    ));
}

/// The report of the last lines of the log text `log`.
pub fn tail_of_log(log: &str) -> (res: String)
    ensures
        res@ == log_tail(log@),
{
    // Split into pieces.
    let mut done: Vec<Vec<char>> = Vec::new();
    let mut cur: Vec<char> = Vec::new();
    assert(log@.take(0) =~= Seq::<char>::empty());
    for c in it: log.chars()
        invariant
            it.seq() == log@,
            newline_pieces(log@.take(it.index() as int)) =~= done@.map_values(
                |v: Vec<char>| v@,
            ).push(cur@),
    {
        proof {
            assert(log@.take(it.index() + 1).drop_last() =~= log@.take(it.index() as int));
            assert(log@.take(it.index() + 1).last() == c);
        }
        if c == '\n' {
            let finished = cur;
            cur = Vec::new();
            done.push(finished);
        } else {
            cur.push(c);
        }
    }
    assert(log@.take(log@.len() as int) =~= log@);
    let ghost pieces = newline_pieces(log@);
    // Keep the lines.
    let mut lines: Vec<Vec<char>> = Vec::new();
    let mut i: usize = 0;
    while i < done.len()
        invariant
            i <= done.len(),
            pieces == done@.map_values(|v: Vec<char>| v@).push(cur@),
            lines@.map_values(|v: Vec<char>| v@) =~= pieces.take(i as int).map_values(
                |l: Seq<char>| strip_cr(l),
            ),
        decreases done.len() - i,
    {
        let mut line: Vec<char> = done[i].clone();
        let n = line.len();
        if n > 0 && line[n - 1] == '\r' {
            line.pop();
        }
        proof {
            assert(line@ == strip_cr(pieces[i as int]));
            assert(pieces.take(i + 1) =~= pieces.take(i as int).push(pieces[i as int]));
        }
        let ghost before = lines@.map_values(|v: Vec<char>| v@);
        let ghost pushed = line@;
        lines.push(line);
        assert(lines@.map_values(|v: Vec<char>| v@) =~= before.push(pushed));
        i = i + 1;
    }
    if cur.len() > 0 {
        lines.push(cur);
    }
    let ghost all = lines@.map_values(|v: Vec<char>| v@);
    assert(pieces.drop_last() =~= pieces.take(done.len() as int));
    assert(all =~= text_lines(log@));
    // Join the last of them.
    let total = lines.len();
    let first = if total < LOG_TAIL_LINES { 0 } else { total - LOG_TAIL_LINES };
    let mut res = String::new();
    let mut j: usize = first;
    assert(all.subrange(first as int, first as int) =~= Seq::<Seq<char>>::empty());
    while j < total
        invariant
            first <= j <= total,
            total == lines.len(),
            all == lines@.map_values(|v: Vec<char>| v@),
            res@ == join_lines(all.subrange(first as int, j as int)),
        decreases total - j,
    {
        let line = &lines[j];
        let mut k: usize = 0;
        let ghost before = res@;
        while k < line.len()
            invariant
                k <= line.len(),
                res@ == before + line@.take(k as int),
            decreases line.len() - k,
        {
            push_char(&mut res, line[k]);
            assert(line@.take(k + 1) =~= line@.take(k as int).push(line@[k as int]));
            k = k + 1;
        }
        push_char(&mut res, '\n');
        proof {
            assert(line@.take(line@.len() as int) =~= line@);
            assert(all.subrange(first as int, j + 1).drop_last() =~= all.subrange(
                first as int,
                j as int,
            ));
        }
        j = j + 1;
    }
    res
}

// ---------------------------------------------------------------------------
// Requests to the strategy
// ---------------------------------------------------------------------------

/// What the server does when a client sends a configuration.
pub enum RequestAction {
    /// The strategy runs already: report its state, configuration unused.
    ReportState,
    /// Parse the configuration and start the strategy with it.
    Start,
}

/// A client sent a configuration: a running strategy is only reported on.
pub fn on_strategy_message(state: &TradeState) -> (res: RequestAction)
    ensures
        state.is_running ==> res == RequestAction::ReportState,
        !state.is_running ==> res == RequestAction::Start,
{
    if state.is_running {
        RequestAction::ReportState
    } else {
        RequestAction::Start
    }
}

/// Starts the strategy: it runs, with its flags and covers cleared.
pub fn start_strategy(state: &mut TradeState)
    ensures
        *final(state) == (TradeState {
            is_running: true,
            is_profit: false,
            is_cover: false,
            cover_num: 0,
        }),
{
    state.is_running = true;
    state.reset();
}

/// Stops the strategy; everything else is kept.
pub fn stop_strategy(state: &mut TradeState)
    ensures
        *final(state) == (TradeState { is_running: false, ..*old(state) }),
{
    state.is_running = false;
}

/// The parcel that answers a stop: the tail of the log, sent as a
/// configuration error.
pub fn stop_report(log: &str) -> (res: SendParcel)
    ensures
        res matches SendParcel::ConfigError(text) && text@ == log_tail(log@),
{
    SendParcel::ConfigError(tail_of_log(log))
}

/// The parcel that reports a running strategy: the tail of the log.
pub fn state_report(log: &str) -> (res: SendParcel)
    ensures
        res matches SendParcel::StrategyState(text) && text@ == log_tail(log@),
{
    SendParcel::StrategyState(tail_of_log(log))
}

/// The parcel that tells that the configuration could not be read.
pub fn config_error_report() -> (res: SendParcel)
    ensures
        res matches SendParcel::ConfigError(text) && text@ == "加载配置错误！"@,
{
    SendParcel::ConfigError(String::from_str("加载配置错误！"))
}

/// The parcel that tells that the strategy ended, with the profit it made
/// (written by the caller).
pub fn finished_report(profit: &str) -> (res: SendParcel)
    ensures
        res matches SendParcel::StrategyState(text) && text@ == "策略结束！盈利 = "@ + profit@,
{
    let mut text = String::from_str("策略结束！盈利 = ");
    text.append(profit);
    SendParcel::StrategyState(text)
}

} // verus!
