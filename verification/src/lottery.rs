//! The lottery: tickets, draws, and the one step that closes a draw.
//!
//! A draw is open until it is conducted, and closed for good afterwards.
//! While it is open, tickets can be bought for it, and every buyer is listed
//! once among its participants. Conducting a draw needs a random seed, which
//! the caller fetches; the winning numbers are a function of the seed.
//!
//! The lottery is modelled by a [`LotteryView`]. A stored record counts as a
//! ticket or a draw only if it reads as a valid one that carries the very key
//! it is stored under; the lottery writes no other records. What an operation
//! does is a function on the model, and each operation's contract says that
//! the lottery follows that function.

use crate::draw::{
    lemma_draw_round_trip, lemma_draw_stays_valid, new_draw, parse_draw, DrawView, LotteryDraw,
};
use crate::listing::{ascending, in_key_order, lemma_scan_end, lemma_scan_step, passed};
use crate::random::{
    are_winning_numbers, generate_winning_numbers, lemma_winning_numbers, winning_numbers,
};
use crate::store::{entry_views, is_listing, Counter, RecordStore, MAX_RECORD_SIZE};
use crate::ticket::{
    are_ticket_numbers, check_numbers, lemma_ticket_round_trip, parse_ticket, ticket_size,
    LotteryTicket, TicketView,
};
use vstd::prelude::*;

verus! {

/// What a lottery operation looked for and did not find.
#[derive(Clone, Copy, Debug, PartialEq, Eq, Structural)]
pub enum Missing {
    /// The draw with this identifier.
    Draw(u64),
    /// The ticket with this identifier.
    Ticket(u64),
    /// Any ticket at all.
    Tickets,
    /// Any draw at all.
    Draws,
}

/// Why a lottery operation failed.
#[derive(Clone, Copy, Debug, PartialEq, Eq, Structural)]
pub enum LotteryError {
    /// What was asked for is not there.
    NotFound(Missing),
    /// The numbers are not six numbers from one to forty-nine.
    InvalidNumbers,
    /// The draw is closed.
    LotteryDrawOver,
    /// No random seed could be had.
    RandomnessUnavailable,
    /// The buyer's identity is too long for a ticket's record, or the draw's
    /// record has no room for one more participant.
    RecordTooLarge,
    /// The counter has no identifier left to give.
    IdsExhausted,
}

/// A lottery as a mathematical value.
#[verifier::ext_equal]
pub struct LotteryView {
    /// The identifier that the next ticket gets.
    pub next_ticket_id: u64,
    /// The identifier that the next draw gets.
    pub next_draw_id: u64,
    /// The tickets, by identifier.
    pub tickets: Map<u64, TicketView>,
    /// The draws, by identifier.
    pub draws: Map<u64, DrawView>,
}

/// The ticket that `records` hold under `id`, if they hold one there.
pub open spec fn ticket_at(records: Map<u64, Seq<u8>>, id: u64) -> Option<TicketView> {
    if records.contains_key(id) {
        match parse_ticket(records[id]) {
            Some(ticket) => if ticket.id == id {
                Some(ticket)
            } else {
                None
            },
            None => None,
        }
    } else {
        None
    }
}

/// The tickets that `records` hold.
pub open spec fn tickets_of(records: Map<u64, Seq<u8>>) -> Map<u64, TicketView> {
    Map::new(|id: u64| ticket_at(records, id) is Some, |id: u64| ticket_at(records, id)->0)
}

/// The draw that `records` hold under `id`, if they hold one there.
pub open spec fn draw_at(records: Map<u64, Seq<u8>>, id: u64) -> Option<DrawView> {
    if records.contains_key(id) {
        match parse_draw(records[id]) {
            Some(draw) => if draw.id == id {
                Some(draw)
            } else {
                None
            },
            None => None,
        }
    } else {
        None
    }
}

/// The draws that `records` hold.
pub open spec fn draws_of(records: Map<u64, Seq<u8>>) -> Map<u64, DrawView> {
    Map::new(|id: u64| draw_at(records, id) is Some, |id: u64| draw_at(records, id)->0)
}

/// The tickets that a list of tickets holds.
pub open spec fn ticket_views(tickets: Seq<LotteryTicket>) -> Seq<TicketView> {
    tickets.map_values(|ticket: LotteryTicket| ticket@)
}

/// The draws that a list of draws holds.
pub open spec fn draw_views(draws: Seq<LotteryDraw>) -> Seq<DrawView> {
    draws.map_values(|draw: LotteryDraw| draw@)
}

/// What an operation answered, with the ticket as a mathematical value.
pub open spec fn ticket_outcome(result: Result<LotteryTicket, LotteryError>) -> Result<
    TicketView,
    LotteryError,
> {
    match result {
        Ok(ticket) => Ok(ticket@),
        Err(error) => Err(error),
    }
}

/// What an operation answered, with the draw as a mathematical value.
pub open spec fn draw_outcome(result: Result<LotteryDraw, LotteryError>) -> Result<
    DrawView,
    LotteryError,
> {
    match result {
        Ok(draw) => Ok(draw@),
        Err(error) => Err(error),
    }
}

/// What an operation answered, with the tickets as mathematical values.
pub open spec fn tickets_outcome(result: Result<Vec<LotteryTicket>, LotteryError>) -> Result<
    Seq<TicketView>,
    LotteryError,
> {
    match result {
        Ok(tickets) => Ok(ticket_views(tickets@)),
        Err(error) => Err(error),
    }
}

/// What an operation answered, with the draws as mathematical values.
pub open spec fn draws_outcome(result: Result<Vec<LotteryDraw>, LotteryError>) -> Result<
    Seq<DrawView>,
    LotteryError,
> {
    match result {
        Ok(draws) => Ok(draw_views(draws@)),
        Err(error) => Err(error),
    }
}

/// The seed that the caller could fetch, if any, as a run of bytes.
pub open spec fn seed_view(seed: Option<[u8; 32]>) -> Option<Seq<u8>> {
    match seed {
        Some(bytes) => Some(bytes@),
        None => None,
    }
}

impl LotteryView {
    /// Every ticket and every draw is valid and is filed under its own
    /// identifier.
    pub open spec fn sound(self) -> bool {
        &&& forall|id: u64| #[trigger]
            self.tickets.contains_key(id) ==> self.tickets[id].valid() && self.tickets[id].id
                == id
        &&& forall|id: u64| #[trigger]
            self.draws.contains_key(id) ==> self.draws[id].valid() && self.draws[id].id == id
    }

    /// No record is filed under an identifier that is still to be handed
    /// out.
    pub open spec fn fresh(self) -> bool {
        &&& forall|id: u64| #[trigger] self.tickets.contains_key(id) ==> id < self.next_ticket_id
        &&& forall|id: u64| #[trigger] self.draws.contains_key(id) ==> id < self.next_draw_id
    }

    /// The lottery with `draw` filed under its identifier, in place of
    /// whatever was there.
    pub open spec fn put_draw(self, draw: DrawView) -> LotteryView {
        LotteryView { draws: self.draws.insert(draw.id, draw), ..self }
    }

    /// The lottery with `ticket` filed under its identifier, in place of
    /// whatever was there.
    pub open spec fn put_ticket(self, ticket: TicketView) -> LotteryView {
        LotteryView { tickets: self.tickets.insert(ticket.id, ticket), ..self }
    }

    /// Looking for the draw `draw_id` to work on: it must be there, and
    /// open.
    pub open spec fn open_draw(self, draw_id: u64) -> Result<DrawView, LotteryError> {
        if !self.draws.contains_key(draw_id) {
            Err(LotteryError::NotFound(Missing::Draw(draw_id)))
        } else if self.draws[draw_id].over {
            Err(LotteryError::LotteryDrawOver)
        } else {
            Ok(self.draws[draw_id])
        }
    }

    /// Creating a draw. The draw gets the next identifier and is filed open,
    /// without participants; if no identifier is left, nothing happens.
    pub open spec fn create_draw(self) -> (LotteryView, Result<DrawView, LotteryError>) {
        if self.next_draw_id == u64::MAX {
            (self, Err(LotteryError::IdsExhausted))
        } else {
            (
                LotteryView {
                    next_draw_id: (self.next_draw_id + 1) as u64,
                    ..self.put_draw(new_draw(self.next_draw_id))
                },
                Ok(new_draw(self.next_draw_id)),
            )
        }
    }

    /// Buying a ticket with `numbers` for the draw `draw_id`, by `owner`, at
    /// the time `now`. The purchase is refused, and nothing happens, if the
    /// numbers are no ticket numbers, if the draw is not there or is closed,
    /// if the records have no room for the owner, or if no identifier is
    /// left. Otherwise the ticket gets the next identifier and is filed, and
    /// the owner is listed among the draw's participants unless listed
    /// already.
    pub open spec fn buy(self, numbers: Seq<u32>, draw_id: u64, owner: Seq<char>, now: u64) -> (
        LotteryView,
        Result<TicketView, LotteryError>,
    ) {
        if !are_ticket_numbers(numbers) {
            (self, Err(LotteryError::InvalidNumbers))
        } else {
            match self.open_draw(draw_id) {
                Err(error) => (self, Err(error)),
                Ok(draw) => if ticket_size(owner, None) > MAX_RECORD_SIZE || !draw.can_join(
                    owner,
                ) {
                    (self, Err(LotteryError::RecordTooLarge))
                } else if self.next_ticket_id == u64::MAX {
                    (self, Err(LotteryError::IdsExhausted))
                } else {
                    let ticket = TicketView {
                        id: self.next_ticket_id,
                        owner,
                        numbers,
                        created_at: now,
                        updated_at: None,
                        lottery_draw_num: draw_id,
                    };
                    (
                        LotteryView {
                            next_ticket_id: (self.next_ticket_id + 1) as u64,
                            ..self.put_draw(draw.joined(owner)).put_ticket(ticket)
                        },
                        Ok(ticket),
                    )
                },
            }
        }
    }

    /// Looking up the ticket `id`.
    pub open spec fn check_ticket(self, id: u64) -> Result<TicketView, LotteryError> {
        if self.tickets.contains_key(id) {
            Ok(self.tickets[id])
        } else {
            Err(LotteryError::NotFound(Missing::Ticket(id)))
        }
    }

    /// Conducting the draw `draw_id` at the time `now`, with the seed that
    /// the caller could fetch. The draw must be there, and open; without a
    /// seed it stays open. Otherwise it is filed again, closed at `now` with
    /// the winning numbers that the seed gives. Whenever the answer is an
    /// error, nothing happens.
    pub open spec fn conduct(self, draw_id: u64, seed: Option<Seq<u8>>, now: u64) -> (
        LotteryView,
        Result<DrawView, LotteryError>,
    ) {
        match self.open_draw(draw_id) {
            Err(error) => (self, Err(error)),
            Ok(draw) => match seed {
                None => (self, Err(LotteryError::RandomnessUnavailable)),
                Some(seed) => (
                    self.put_draw(draw.closed(winning_numbers(seed), now)),
                    Ok(draw.closed(winning_numbers(seed), now)),
                ),
            },
        }
    }

    /// All tickets in ascending order of identifier; without any ticket, an
    /// error.
    pub open spec fn all_tickets(self) -> Result<Seq<TicketView>, LotteryError> {
        if in_key_order(self.tickets).len() == 0 {
            Err(LotteryError::NotFound(Missing::Tickets))
        } else {
            Ok(in_key_order(self.tickets))
        }
    }

    /// All draws in ascending order of identifier; without any draw, an
    /// error.
    pub open spec fn all_draws(self) -> Result<Seq<DrawView>, LotteryError> {
        if in_key_order(self.draws).len() == 0 {
            Err(LotteryError::NotFound(Missing::Draws))
        } else {
            Ok(in_key_order(self.draws))
        }
    }
}

/// The lottery: a counter and a store for tickets, and a counter and a
/// store for draws.
pub struct Lottery {
    ticket_ids: Counter,
    draw_ids: Counter,
    tickets: RecordStore,
    draws: RecordStore,
}

impl View for Lottery {
    type V = LotteryView;

    closed spec fn view(&self) -> LotteryView {
        LotteryView {
            next_ticket_id: self.ticket_ids@,
            next_draw_id: self.draw_ids@,
            tickets: tickets_of(self.tickets@),
            draws: draws_of(self.draws@),
        }
    }
}

impl Lottery {
    /// The lottery over two counters and two stores.
    pub fn new(
        ticket_ids: Counter,
        draw_ids: Counter,
        tickets: RecordStore,
        draws: RecordStore,
    ) -> (lottery: Lottery)
        ensures
            lottery@ == (LotteryView {
                next_ticket_id: ticket_ids@,
                next_draw_id: draw_ids@,
                tickets: tickets_of(tickets@),
                draws: draws_of(draws@),
            }),
    {
        Lottery { ticket_ids, draw_ids, tickets, draws }
    }

    /// Buys a ticket with `numbers` for the draw `draw_id`, for the buyer
    /// `owner` at the time `now`, and answers with the ticket. Whenever the
    /// answer is an error, nothing changes: no ticket is filed and no
    /// participant is listed.
    pub fn buy_lottery_ticket(
        &mut self,
        numbers: Vec<u32>,
        draw_id: u64,
        owner: String,
        now: u64,
    ) -> (bought: Result<LotteryTicket, LotteryError>)
        ensures
            final(self)@ == old(self)@.buy(numbers@, draw_id, owner@, now).0,
            ticket_outcome(bought) == old(self)@.buy(numbers@, draw_id, owner@, now).1,
            bought is Err ==> final(self)@ == old(self)@,
            !are_ticket_numbers(numbers@) ==> bought == Err::<LotteryTicket, LotteryError>(
                LotteryError::InvalidNumbers,
            ),
    {
        if !check_numbers(&numbers) {
            return Err(LotteryError::InvalidNumbers);
        }
        let draw = match self.find_open_draw(draw_id) {
            Ok(draw) => draw,
            Err(error) => { return Err(error); },
        };
        let id = self.ticket_ids.value();
        let ticket = match LotteryTicket::new(id, owner, numbers, now, draw_id) {
            Ok(ticket) => ticket,
            Err(error) => { return Err(error); },
        };
        let joined = match draw.join(ticket.owner()) {
            Some(joined) => joined,
            None => { return Err(LotteryError::RecordTooLarge); },
        };
        if self.ticket_ids.next().is_none() {
            return Err(LotteryError::IdsExhausted);
        }
        proof {
            lemma_lottery_sound(*old(self));
        }
        self.file_draw(&joined);
        self.file_ticket(&ticket);
        assert(self@ =~= old(self)@.buy(numbers@, draw_id, owner@, now).0);
        Ok(ticket)
    }

    /// The ticket with the identifier `id`.
    pub fn check_lottery_ticket(&self, id: u64) -> (found: Result<LotteryTicket, LotteryError>)
        ensures
            ticket_outcome(found) == self@.check_ticket(id),
    {
        match self.tickets.get(id) {
            Some(record) => match LotteryTicket::from_bytes(&record) {
                Some(ticket) => if ticket.id() == id {
                    Ok(ticket)
                } else {
                    Err(LotteryError::NotFound(Missing::Ticket(id)))
                },
                None => Err(LotteryError::NotFound(Missing::Ticket(id))),
            },
            None => Err(LotteryError::NotFound(Missing::Ticket(id))),
        }
    }

    /// Creates an open draw without participants under the next identifier
    /// and answers with it.
    pub fn create_lottery_draw(&mut self) -> (created: Result<LotteryDraw, LotteryError>)
        ensures
            final(self)@ == old(self)@.create_draw().0,
            draw_outcome(created) == old(self)@.create_draw().1,
            old(self)@.next_draw_id < u64::MAX ==> created is Ok,
    {
        let id = match self.draw_ids.next() {
            Some(id) => id,
            None => { return Err(LotteryError::IdsExhausted); },
        };
        let draw = LotteryDraw::new(id);
        self.file_draw(&draw);
        assert(self@ =~= old(self)@.create_draw().0);
        Ok(draw)
    }

    /// The draw `draw_id`, if it is there and open: what buying a ticket and
    /// conducting the draw both ask first. A caller that has to fetch a seed
    /// asks this before it does.
    pub fn find_open_draw(&self, draw_id: u64) -> (found: Result<LotteryDraw, LotteryError>)
        ensures
            draw_outcome(found) == self@.open_draw(draw_id),
    {
        let draw = match self.draws.get(draw_id) {
            Some(record) => match LotteryDraw::from_bytes(&record) {
                Some(draw) => draw,
                None => { return Err(LotteryError::NotFound(Missing::Draw(draw_id))); },
            },
            None => { return Err(LotteryError::NotFound(Missing::Draw(draw_id))); },
        };
        if draw.id() != draw_id {
            return Err(LotteryError::NotFound(Missing::Draw(draw_id)));
        }
        if draw.over() {
            return Err(LotteryError::LotteryDrawOver);
        }
        Ok(draw)
    }

    /// Conducts the draw `draw_id` at the time `now` with the seed that the
    /// caller could fetch, and answers with the closed draw. The draw is
    /// looked up afresh, so a draw that was closed while the seed was being
    /// fetched is not closed again. Whenever the answer is an error, nothing
    /// changes.
    pub fn conduct_lottery_draw(
        &mut self,
        draw_id: u64,
        seed: Option<[u8; 32]>,
        now: u64,
    ) -> (conducted: Result<LotteryDraw, LotteryError>)
        ensures
            final(self)@ == old(self)@.conduct(draw_id, seed_view(seed), now).0,
            draw_outcome(conducted) == old(self)@.conduct(draw_id, seed_view(seed), now).1,
            conducted is Err ==> final(self)@ == old(self)@,
    {
        let draw = match self.find_open_draw(draw_id) {
            Ok(draw) => draw,
            Err(error) => { return Err(error); },
        };
        let seed = match seed {
            Some(seed) => seed,
            None => { return Err(LotteryError::RandomnessUnavailable); },
        };
        let numbers = generate_winning_numbers(&seed);
        let closed = match draw.close(numbers, now) {
            Some(closed) => closed,
            None => { return Err(LotteryError::LotteryDrawOver); },
        };
        proof {
            lemma_lottery_sound(*old(self));
        }
        self.file_draw(&closed);
        assert(self@ =~= old(self)@.conduct(draw_id, seed_view(Some(seed)), now).0);
        Ok(closed)
    }

    /// All tickets, in ascending order of identifier. Without any ticket
    /// the answer is an error.
    pub fn get_all_lottery_tickets(&self) -> (found: Result<Vec<LotteryTicket>, LotteryError>)
        ensures
            tickets_outcome(found) == self@.all_tickets(),
    {
        let entries = self.tickets.iterate();
        let ghost records = self.tickets@;
        let ghost listing = entry_views(entries@);
        let ghost tickets = tickets_of(records);
        let mut found: Vec<LotteryTicket> = Vec::new();
        let mut at: usize = 0;
        assert(ticket_views(found@) =~= ascending(tickets, 0));
        while at < entries.len()
            invariant
                at <= entries@.len(),
                listing == entry_views(entries@),
                is_listing(listing, records),
                tickets == tickets_of(records),
                ticket_views(found@) == ascending(tickets, passed(listing, at as int)),
            decreases entries@.len() - at,
        {
            let key = entries[at].0;
            let parsed = LotteryTicket::from_bytes(&entries[at].1);
            proof {
                assert(listing[at as int] == (key, entries@[at as int].1@));
                lemma_scan_step(listing, records, tickets, at as int);
            }
            match parsed {
                Some(ticket) => {
                    if ticket.id() == key {
                        proof {
                            assert(ticket_views(found@.push(ticket)) =~= ticket_views(found@).push(
                                ticket@,
                            ));
                        }
                        found.push(ticket);
                    }
                },
                None => {},
            }
            at += 1;
        }
        proof {
            lemma_scan_end(listing, records, tickets);
        }
        if found.len() == 0 {
            return Err(LotteryError::NotFound(Missing::Tickets));
        }
        Ok(found)
    }

    /// All draws, in ascending order of identifier. Without any draw the
    /// answer is an error.
    pub fn get_all_lottery_draws(&self) -> (found: Result<Vec<LotteryDraw>, LotteryError>)
        ensures
            draws_outcome(found) == self@.all_draws(),
    {
        let entries = self.draws.iterate();
        let ghost records = self.draws@;
        let ghost listing = entry_views(entries@);
        let ghost draws = draws_of(records);
        let mut found: Vec<LotteryDraw> = Vec::new();
        let mut at: usize = 0;
        assert(draw_views(found@) =~= ascending(draws, 0));
        while at < entries.len()
            invariant
                at <= entries@.len(),
                listing == entry_views(entries@),
                is_listing(listing, records),
                draws == draws_of(records),
                draw_views(found@) == ascending(draws, passed(listing, at as int)),
            decreases entries@.len() - at,
        {
            let key = entries[at].0;
            let parsed = LotteryDraw::from_bytes(&entries[at].1);
            proof {
                assert(listing[at as int] == (key, entries@[at as int].1@));
                lemma_scan_step(listing, records, draws, at as int);
            }
            match parsed {
                Some(draw) => {
                    if draw.id() == key {
                        proof {
                            assert(draw_views(found@.push(draw)) =~= draw_views(found@).push(
                                draw@,
                            ));
                        }
                        found.push(draw);
                    }
                },
                None => {},
            }
            at += 1;
        }
        proof {
            lemma_scan_end(listing, records, draws);
        }
        if found.len() == 0 {
            return Err(LotteryError::NotFound(Missing::Draws));
        }
        Ok(found)
    }

    /// Files `draw` under its identifier, in place of whatever was there.
    fn file_draw(&mut self, draw: &LotteryDraw)
        ensures
            final(self)@ == old(self)@.put_draw(draw@),
    {
        let record = draw.to_bytes();
        proof {
            use_type_invariant(draw);
            lemma_draws_insert(self.draws@, draw@);
        }
        self.draws.insert(draw.id(), &record);
    }

    /// Files `ticket` under its identifier, in place of whatever was there.
    fn file_ticket(&mut self, ticket: &LotteryTicket)
        ensures
            final(self)@ == old(self)@.put_ticket(ticket@),
    {
        let record = ticket.to_bytes();
        proof {
            use_type_invariant(ticket);
            lemma_tickets_insert(self.tickets@, ticket@);
        }
        self.tickets.insert(ticket.id(), &record);
    }
}

/// Filing the record of a valid draw files the draw, and touches no other
/// draw.
pub proof fn lemma_draws_insert(records: Map<u64, Seq<u8>>, draw: DrawView)
    requires
        draw.valid(),
    ensures
        draws_of(records.insert(draw.id, draw.bytes())) == draws_of(records).insert(
            draw.id,
            draw,
        ),
{
    lemma_draw_round_trip(draw);
    let after = records.insert(draw.id, draw.bytes());
    assert forall|id: u64| draw_at(after, id) == (if id == draw.id {
        Some(draw)
    } else {
        draw_at(records, id)
    }) by {}
    assert(draws_of(after) =~= draws_of(records).insert(draw.id, draw));
}

/// Filing the record of a valid ticket files the ticket, and touches no
/// other ticket.
pub proof fn lemma_tickets_insert(records: Map<u64, Seq<u8>>, ticket: TicketView)
    requires
        ticket.valid(),
    ensures
        tickets_of(records.insert(ticket.id, ticket.bytes())) == tickets_of(records).insert(
            ticket.id,
            ticket,
        ),
{
    lemma_ticket_round_trip(ticket);
    let after = records.insert(ticket.id, ticket.bytes());
    assert forall|id: u64| ticket_at(after, id) == (if id == ticket.id {
        Some(ticket)
    } else {
        ticket_at(records, id)
    }) by {}
    assert(tickets_of(after) =~= tickets_of(records).insert(ticket.id, ticket));
}

/// Every ticket and every draw of a lottery is valid and is filed under its
/// own identifier.
pub proof fn lemma_lottery_sound(lottery: Lottery)
    ensures
        lottery@.sound(),
{
}

/// `owner` is listed among `participants`, and listed once.
pub open spec fn listed_once(participants: Seq<Seq<char>>, owner: Seq<char>) -> bool {
    exists|at: int|
        0 <= at < participants.len() && #[trigger] participants[at] == owner && forall|other: int|
            0 <= other < participants.len() && #[trigger] participants[other] == owner ==> other
                == at
}

/// Buying, conducting and creating keep a lottery sound.
pub proof fn lemma_lottery_stays_sound(
    lottery: LotteryView,
    numbers: Seq<u32>,
    draw_id: u64,
    owner: Seq<char>,
    seed: Option<Seq<u8>>,
    now: u64,
)
    requires
        lottery.sound(),
    ensures
        lottery.buy(numbers, draw_id, owner, now).0.sound(),
        lottery.conduct(draw_id, seed, now).0.sound(),
        lottery.create_draw().0.sound(),
{
    if lottery.draws.contains_key(draw_id) {
        let draw = lottery.draws[draw_id];
        if let Some(seed) = seed {
            lemma_winning_numbers(seed);
            lemma_draw_stays_valid(draw, owner, winning_numbers(seed), now);
        } else {
            lemma_draw_stays_valid(draw, owner, Seq::empty(), now);
        }
    }
    lemma_draw_stays_valid(new_draw(lottery.next_draw_id), owner, Seq::empty(), now);
}

/// Identifiers are not used twice: as long as no record is filed under an
/// identifier still to be handed out, buying, conducting and creating keep
/// it so, and a new ticket or draw takes the place of no other.
pub proof fn lemma_lottery_stays_fresh(
    lottery: LotteryView,
    numbers: Seq<u32>,
    draw_id: u64,
    owner: Seq<char>,
    seed: Option<Seq<u8>>,
    now: u64,
)
    requires
        lottery.sound(),
        lottery.fresh(),
    ensures
        lottery.buy(numbers, draw_id, owner, now).0.fresh(),
        lottery.conduct(draw_id, seed, now).0.fresh(),
        lottery.create_draw().0.fresh(),
        lottery.buy(numbers, draw_id, owner, now).1 matches Ok(ticket)
            ==> !lottery.tickets.contains_key(ticket.id),
        lottery.create_draw().1 matches Ok(draw) ==> !lottery.draws.contains_key(draw.id),
{
}

/// A purchase with numbers that are not six, or with a number that is zero
/// or above forty-nine among them, fails with `InvalidNumbers` and leaves
/// the lottery as it was: no ticket is filed, no participant is listed.
pub proof fn lemma_invalid_numbers_change_nothing(
    lottery: LotteryView,
    numbers: Seq<u32>,
    draw_id: u64,
    owner: Seq<char>,
    now: u64,
)
    requires
        numbers.len() != 6 || exists|at: int|
            0 <= at < numbers.len() && (#[trigger] numbers[at] == 0 || numbers[at] > 49),
    ensures
        lottery.buy(numbers, draw_id, owner, now) == (
            lottery,
            Err::<TicketView, LotteryError>(LotteryError::InvalidNumbers),
        ),
{
}

/// Two tickets bought for one draw by one buyer have different
/// identifiers, and the buyer is listed once among the draw's participants.
pub proof fn lemma_two_tickets_one_participant(
    lottery: LotteryView,
    first_numbers: Seq<u32>,
    second_numbers: Seq<u32>,
    draw_id: u64,
    owner: Seq<char>,
    first_now: u64,
    second_now: u64,
)
    requires
        lottery.sound(),
        lottery.buy(first_numbers, draw_id, owner, first_now).1 is Ok,
        lottery.buy(first_numbers, draw_id, owner, first_now).0.buy(
            second_numbers,
            draw_id,
            owner,
            second_now,
        ).1 is Ok,
    ensures
        ({
            let (between, first) = lottery.buy(first_numbers, draw_id, owner, first_now);
            let (after, second) = between.buy(second_numbers, draw_id, owner, second_now);
            &&& first->Ok_0.id < second->Ok_0.id
            &&& after.tickets.contains_key(first->Ok_0.id)
            &&& after.tickets[first->Ok_0.id] == first->Ok_0
            &&& after.tickets.contains_key(second->Ok_0.id)
            &&& after.tickets[second->Ok_0.id] == second->Ok_0
            &&& after.draws.contains_key(draw_id)
            &&& after.draws[draw_id].participants == between.draws[draw_id].participants
            &&& listed_once(after.draws[draw_id].participants, owner)
        }),
{
    let (between, first) = lottery.buy(first_numbers, draw_id, owner, first_now);
    lemma_lottery_stays_sound(lottery, first_numbers, draw_id, owner, None, first_now);
    let participants = between.draws[draw_id].participants;
    assert(participants.contains(owner)) by {
        let before = lottery.draws[draw_id].participants;
        if !before.contains(owner) {
            assert(before.push(owner)[before.len() as int] == owner);
        }
    }
    let at = choose|at: int| 0 <= at < participants.len() && participants[at] == owner;
    assert(participants[at] == owner);
}

/// Conducting a draw that is closed fails with `LotteryDrawOver` and leaves
/// the lottery as it was: the draw keeps its winning numbers and its time.
pub proof fn lemma_closed_draw_is_not_conducted(
    lottery: LotteryView,
    draw_id: u64,
    seed: Option<Seq<u8>>,
    now: u64,
)
    requires
        lottery.draws.contains_key(draw_id),
        lottery.draws[draw_id].over,
    ensures
        lottery.conduct(draw_id, seed, now) == (
            lottery,
            Err::<DrawView, LotteryError>(LotteryError::LotteryDrawOver),
        ),
{
}

/// A closed draw stays closed, and stays as it is, whatever is bought or
/// conducted.
pub proof fn lemma_closed_draw_is_final(
    lottery: LotteryView,
    closed_id: u64,
    numbers: Seq<u32>,
    draw_id: u64,
    owner: Seq<char>,
    seed: Option<Seq<u8>>,
    now: u64,
)
    requires
        lottery.sound(),
        lottery.draws.contains_key(closed_id),
        lottery.draws[closed_id].over,
    ensures
        lottery.buy(numbers, draw_id, owner, now).0.draws.contains_key(closed_id),
        lottery.buy(numbers, draw_id, owner, now).0.draws[closed_id] == lottery.draws[closed_id],
        lottery.conduct(draw_id, seed, now).0.draws.contains_key(closed_id),
        lottery.conduct(draw_id, seed, now).0.draws[closed_id] == lottery.draws[closed_id],
{
}

/// The winning numbers depend on the seed alone: two draws conducted with
/// the same seed, in whatever lottery and at whatever time, get the same six
/// winning numbers.
pub proof fn lemma_same_seed_same_numbers(
    first: LotteryView,
    first_draw: u64,
    first_now: u64,
    second: LotteryView,
    second_draw: u64,
    second_now: u64,
    seed: Seq<u8>,
)
    requires
        first.conduct(first_draw, Some(seed), first_now).1 is Ok,
        second.conduct(second_draw, Some(seed), second_now).1 is Ok,
    ensures
        ({
            let one = first.conduct(first_draw, Some(seed), first_now).1->Ok_0;
            let other = second.conduct(second_draw, Some(seed), second_now).1->Ok_0;
            &&& one.winning_numbers == other.winning_numbers
            &&& one.winning_numbers == winning_numbers(seed)
            &&& are_winning_numbers(one.winning_numbers)
            &&& one.over && other.over
            &&& one.draw_time == first_now && other.draw_time == second_now
        }),
{
    lemma_winning_numbers(seed);
}

} // verus!
