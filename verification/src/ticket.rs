//! The lottery ticket record: what it holds, when it is valid, and how it
//! is laid out in a stored record.

use crate::lists::copy_numbers;
use crate::lottery::LotteryError;
use crate::store::MAX_RECORD_SIZE;
use crate::wire::{
    frame, framed, lemma_take_frame, lemma_take_maybe_u64, lemma_take_numbers, lemma_take_text,
    lemma_take_u64, maybe_u64_bytes, numbers_bytes, put_maybe_u64, put_numbers, put_text, put_u64,
    read_frame, read_maybe_u64, read_numbers, read_text, read_u64, take_frame, take_maybe_u64,
    take_numbers, take_text, take_u64, text_bytes, u64_bytes,
};
use vstd::prelude::*;
use vstd::string::*;
use vstd::utf8::*;

verus! {

/// How many numbers a ticket has.
pub const TICKET_NUMBERS: usize = 6;

/// The highest number a ticket may have; the lowest is one.
pub const HIGHEST_NUMBER: u32 = 49;

/// A ticket as a mathematical value.
pub struct TicketView {
    pub id: u64,
    pub owner: Seq<char>,
    pub numbers: Seq<u32>,
    pub created_at: u64,
    pub updated_at: Option<u64>,
    pub lottery_draw_num: u64,
}

/// What a ticket's numbers have to be: six numbers, each from one to
/// [`HIGHEST_NUMBER`].
pub open spec fn are_ticket_numbers(numbers: Seq<u32>) -> bool {
    &&& numbers.len() == TICKET_NUMBERS
    &&& forall|at: int| 0 <= at < numbers.len() ==> 1 <= #[trigger] numbers[at] <= HIGHEST_NUMBER
}

/// The number of bytes that the stored record of a ticket that was never
/// updated takes besides the bytes of its owner: the frame, three integers,
/// the six numbers with their count, the length of the owner and the flag of
/// the update.
pub const TICKET_FIXED_SIZE: usize = 61;

/// The number of bytes in the stored record of a ticket with six numbers,
/// this owner and this time of update.
pub open spec fn ticket_size(owner: Seq<char>, updated_at: Option<u64>) -> nat {
    TICKET_FIXED_SIZE as nat + encode_utf8(owner).len() + if updated_at is Some {
        8nat
    } else {
        0nat
    }
}

/// Why no ticket can be made of these numbers for this owner, if there is a
/// reason.
pub open spec fn ticket_fault(numbers: Seq<u32>, owner: Seq<char>) -> Option<LotteryError> {
    if !are_ticket_numbers(numbers) {
        Some(LotteryError::InvalidNumbers)
    } else if ticket_size(owner, None) > MAX_RECORD_SIZE {
        Some(LotteryError::RecordTooLarge)
    } else {
        None
    }
}

impl TicketView {
    /// The data model's demands on a ticket: its numbers are ticket
    /// numbers, and it fits in one stored record.
    pub open spec fn valid(self) -> bool {
        &&& are_ticket_numbers(self.numbers)
        &&& ticket_size(self.owner, self.updated_at) <= MAX_RECORD_SIZE
    }

    /// The body of the ticket's stored record.
    pub open spec fn body(self) -> Seq<u8> {
        u64_bytes(self.id) + text_bytes(self.owner) + numbers_bytes(self.numbers) + u64_bytes(
            self.created_at,
        ) + maybe_u64_bytes(self.updated_at) + u64_bytes(self.lottery_draw_num)
    }

    /// The ticket's stored record.
    pub open spec fn bytes(self) -> Seq<u8> {
        framed(self.body())
    }
}

/// The ticket that a stored record holds, if it holds one: the record must
/// be laid out as [`TicketView::bytes`] lays it out, with nothing left
/// over, and the ticket must be valid.
pub open spec fn parse_ticket(bytes: Seq<u8>) -> Option<TicketView> {
    match take_frame(bytes) {
        Some(body) => match take_u64(body) {
            Some((id, rest)) => match take_text(rest) {
                Some((owner, rest)) => match take_numbers(rest) {
                    Some((numbers, rest)) => match take_u64(rest) {
                        Some((created_at, rest)) => match take_maybe_u64(rest) {
                            Some((updated_at, rest)) => match take_u64(rest) {
                                Some((lottery_draw_num, rest)) => {
                                    let ticket = TicketView {
                                        id,
                                        owner,
                                        numbers,
                                        created_at,
                                        updated_at,
                                        lottery_draw_num,
                                    };
                                    if rest.len() == 0 && ticket.valid() {
                                        Some(ticket)
                                    } else {
                                        None
                                    }
                                },
                                None => None,
                            },
                            None => None,
                        },
                        None => None,
                    },
                    None => None,
                },
                None => None,
            },
            None => None,
        },
        None => None,
    }
}

/// A lottery ticket. Every value of this type is valid.
#[derive(Debug)]
pub struct LotteryTicket {
    id: u64,
    owner: String,
    numbers: Vec<u32>,
    created_at: u64,
    updated_at: Option<u64>,
    lottery_draw_num: u64,
}

impl View for LotteryTicket {
    type V = TicketView;

    closed spec fn view(&self) -> TicketView {
        TicketView {
            id: self.id,
            owner: self.owner@,
            numbers: self.numbers@,
            created_at: self.created_at,
            updated_at: self.updated_at,
            lottery_draw_num: self.lottery_draw_num,
        }
    }
}

impl Clone for LotteryTicket {
    fn clone(&self) -> (copy: Self)
        ensures
            copy@ == self@,
    {
        proof {
            use_type_invariant(self);
        }
        LotteryTicket {
            id: self.id,
            owner: self.owner.clone(),
            numbers: copy_numbers(&self.numbers),
            created_at: self.created_at,
            updated_at: self.updated_at,
            lottery_draw_num: self.lottery_draw_num,
        }
    }
}

impl LotteryTicket {
    #[verifier::type_invariant]
    pub open spec fn well_formed(self) -> bool {
        self@.valid()
    }

    /// A ticket that was never updated, unless the numbers are no ticket
    /// numbers or the owner is too long for one stored record.
    pub fn new(
        id: u64,
        owner: String,
        numbers: Vec<u32>,
        created_at: u64,
        lottery_draw_num: u64,
    ) -> (made: Result<LotteryTicket, LotteryError>)
        ensures
            match made {
                Ok(ticket) => ticket_fault(numbers@, owner@) is None && ticket@ == (TicketView {
                    id,
                    owner: owner@,
                    numbers: numbers@,
                    created_at,
                    updated_at: None,
                    lottery_draw_num,
                }),
                Err(error) => ticket_fault(numbers@, owner@) == Some(error),
            },
    {
        if !check_numbers(&numbers) {
            return Err(LotteryError::InvalidNumbers);
        }
        if !owner_fits(&owner, None) {
            return Err(LotteryError::RecordTooLarge);
        }
        Ok(LotteryTicket { id, owner, numbers, created_at, updated_at: None, lottery_draw_num })
    }

    /// The ticket's identifier.
    pub fn id(&self) -> (id: u64)
        ensures
            id == self@.id,
    {
        self.id
    }

    /// The identity of the buyer.
    pub fn owner(&self) -> (owner: &String)
        ensures
            owner@ == self@.owner,
    {
        &self.owner
    }

    /// The six numbers.
    pub fn numbers(&self) -> (numbers: &Vec<u32>)
        ensures
            numbers@ == self@.numbers,
    {
        &self.numbers
    }

    /// The time of the purchase.
    pub fn created_at(&self) -> (created_at: u64)
        ensures
            created_at == self@.created_at,
    {
        self.created_at
    }

    /// The time of the last update, if the ticket was ever updated.
    pub fn updated_at(&self) -> (updated_at: Option<u64>)
        ensures
            updated_at == self@.updated_at,
    {
        self.updated_at
    }

    /// The identifier of the draw that the ticket was bought for.
    pub fn lottery_draw_num(&self) -> (lottery_draw_num: u64)
        ensures
            lottery_draw_num == self@.lottery_draw_num,
    {
        self.lottery_draw_num
    }

    /// The ticket's stored record.
    pub fn to_bytes(&self) -> (bytes: Vec<u8>)
        ensures
            bytes@ == self@.bytes(),
            bytes@.len() <= MAX_RECORD_SIZE,
    {
        proof {
            use_type_invariant(self);
            lemma_ticket_bytes(self@);
        }
        let mut body = Vec::new();
        put_u64(&mut body, self.id);
        put_text(&mut body, self.owner.as_str());
        put_numbers(&mut body, &self.numbers);
        put_u64(&mut body, self.created_at);
        put_maybe_u64(&mut body, self.updated_at);
        put_u64(&mut body, self.lottery_draw_num);
        assert(body@ =~= self@.body());
        frame(&body)
    }

    /// The ticket that a stored record holds, if it holds one.
    pub fn from_bytes(bytes: &Vec<u8>) -> (parsed: Option<LotteryTicket>)
        ensures
            match parsed {
                Some(ticket) => parse_ticket(bytes@) == Some(ticket@),
                None => parse_ticket(bytes@) is None,
            },
    {
        let at = match read_frame(bytes) {
            Some(at) => at,
            None => { return None; },
        };
        let (id, at) = match read_u64(bytes, at) {
            Some(read) => read,
            None => { return None; },
        };
        let (owner, at) = match read_text(bytes, at) {
            Some(read) => read,
            None => { return None; },
        };
        let (numbers, at) = match read_numbers(bytes, at) {
            Some(read) => read,
            None => { return None; },
        };
        let (created_at, at) = match read_u64(bytes, at) {
            Some(read) => read,
            None => { return None; },
        };
        let (updated_at, at) = match read_maybe_u64(bytes, at) {
            Some(read) => read,
            None => { return None; },
        };
        let (lottery_draw_num, at) = match read_u64(bytes, at) {
            Some(read) => read,
            None => { return None; },
        };
        if at != bytes.len() || !check_numbers(&numbers) || !owner_fits(&owner, updated_at) {
            return None;
        }
        Some(LotteryTicket { id, owner, numbers, created_at, updated_at, lottery_draw_num })
    }
}

/// Whether `numbers` are ticket numbers.
pub fn check_numbers(numbers: &Vec<u32>) -> (valid: bool)
    ensures
        valid == are_ticket_numbers(numbers@),
{
    if numbers.len() != TICKET_NUMBERS {
        return false;
    }
    let mut at: usize = 0;
    while at < numbers.len()
        invariant
            at <= numbers@.len(),
            forall|before: int|
                0 <= before < at ==> 1 <= #[trigger] numbers@[before] <= HIGHEST_NUMBER,
        decreases numbers@.len() - at,
    {
        if numbers[at] == 0 || numbers[at] > HIGHEST_NUMBER {
            return false;
        }
        at += 1;
    }
    true
}

/// Whether a ticket of this owner, with this time of update, fits in one
/// stored record.
fn owner_fits(owner: &String, updated_at: Option<u64>) -> (fit: bool)
    ensures
        fit == (ticket_size(owner@, updated_at) <= MAX_RECORD_SIZE),
{
    let fixed: usize = if updated_at.is_some() {
        TICKET_FIXED_SIZE + 8
    } else {
        TICKET_FIXED_SIZE
    };
    owner.as_str().as_bytes().len() <= MAX_RECORD_SIZE - fixed
}

/// The stored record of a valid ticket has as many bytes as
/// [`ticket_size`] says.
pub proof fn lemma_ticket_bytes(ticket: TicketView)
    requires
        ticket.valid(),
    ensures
        ticket.body().len() == ticket_size(ticket.owner, ticket.updated_at) - 4,
        ticket.bytes().len() == ticket_size(ticket.owner, ticket.updated_at),
{
    lemma_take_u64(ticket.id, Seq::empty());
    lemma_take_text(ticket.owner, Seq::empty());
    lemma_take_numbers(ticket.numbers, Seq::empty());
    lemma_take_u64(ticket.created_at, Seq::empty());
    lemma_take_maybe_u64(ticket.updated_at, Seq::empty());
    lemma_take_u64(ticket.lottery_draw_num, Seq::empty());
    lemma_take_frame(ticket.body());
}

/// Reading the stored record of a valid ticket gives the ticket back.
pub proof fn lemma_ticket_round_trip(ticket: TicketView)
    requires
        ticket.valid(),
    ensures
        parse_ticket(ticket.bytes()) == Some(ticket),
{
    lemma_ticket_bytes(ticket);
    let body = ticket.body();
    lemma_take_frame(body);
    let after_draw = Seq::<u8>::empty();
    let after_updated = u64_bytes(ticket.lottery_draw_num) + after_draw;
    let after_created = maybe_u64_bytes(ticket.updated_at) + after_updated;
    let after_numbers = u64_bytes(ticket.created_at) + after_created;
    let after_owner = numbers_bytes(ticket.numbers) + after_numbers;
    let after_id = text_bytes(ticket.owner) + after_owner;
    assert(body =~= u64_bytes(ticket.id) + after_id);
    lemma_take_u64(ticket.id, after_id);
    lemma_take_text(ticket.owner, after_owner);
    lemma_take_numbers(ticket.numbers, after_numbers);
    lemma_take_u64(ticket.created_at, after_created);
    lemma_take_maybe_u64(ticket.updated_at, after_updated);
    lemma_take_u64(ticket.lottery_draw_num, after_draw);
}

} // verus!
