//! The lottery draw record: what it holds, when it is valid, how it moves
//! from open to closed, and how it is laid out in a stored record.

use crate::lists::{all_distinct, copy_numbers, copy_texts, holds_text, text_views};
use crate::random::{are_winning_numbers, WINNING_BOUND, WINNING_NUMBERS};
use crate::store::MAX_RECORD_SIZE;
use crate::wire::{
    each_text_size, flag_bytes, frame, framed, lemma_each_text_push, lemma_take_flag,
    lemma_take_frame, lemma_take_numbers, lemma_take_texts, lemma_take_u64, measure_texts,
    numbers_bytes, put_flag, put_numbers, put_texts, put_u64, read_flag, read_frame, read_numbers,
    read_texts, read_u64, take_flag, take_frame, take_numbers, take_texts, take_u64, texts_bytes,
    u64_bytes,
};
use vstd::prelude::*;
use vstd::string::*;
use vstd::utf8::*;

verus! {

/// A draw as a mathematical value.
pub struct DrawView {
    pub id: u64,
    pub winning_numbers: Seq<u32>,
    pub draw_time: u64,
    pub participants: Seq<Seq<char>>,
    pub over: bool,
}

/// The number of bytes that the stored record of a closed draw takes besides
/// its participants: the frame, two integers, the six winning numbers with
/// their count, the count of the participants and the flag.
pub const DRAW_FIXED_SIZE: usize = 53;

/// The number of bytes in the stored record of a closed draw with these
/// participants. An open draw takes less, and keeps the difference free for
/// the winning numbers to come.
pub open spec fn draw_size(participants: Seq<Seq<char>>) -> nat {
    DRAW_FIXED_SIZE as nat + each_text_size(participants)
}

impl DrawView {
    /// The data model's demands on a draw. An open draw has no winning
    /// numbers and no time; a closed one has its six winning numbers. No
    /// participant is listed twice, and the draw fits in one stored record,
    /// closed as well as open.
    pub open spec fn valid(self) -> bool {
        &&& if self.over {
            are_winning_numbers(self.winning_numbers)
        } else {
            self.winning_numbers.len() == 0 && self.draw_time == 0
        }
        &&& self.participants.no_duplicates()
        &&& draw_size(self.participants) <= MAX_RECORD_SIZE
    }

    /// Whether `owner` can take part: as one who is listed already, or as
    /// one more whom the stored record has room for.
    pub open spec fn can_join(self, owner: Seq<char>) -> bool {
        self.participants.contains(owner) || draw_size(self.participants.push(owner))
            <= MAX_RECORD_SIZE
    }

    /// The draw with `owner` among its participants: added at the end
    /// unless listed already.
    pub open spec fn joined(self, owner: Seq<char>) -> DrawView {
        if self.participants.contains(owner) {
            self
        } else {
            DrawView { participants: self.participants.push(owner), ..self }
        }
    }

    /// The draw closed at `draw_time` with `winning_numbers`.
    pub open spec fn closed(self, winning_numbers: Seq<u32>, draw_time: u64) -> DrawView {
        DrawView { winning_numbers, draw_time, over: true, ..self }
    }

    /// The body of the draw's stored record.
    pub open spec fn body(self) -> Seq<u8> {
        u64_bytes(self.id) + numbers_bytes(self.winning_numbers) + u64_bytes(self.draw_time)
            + texts_bytes(self.participants) + flag_bytes(self.over)
    }

    /// The draw's stored record.
    pub open spec fn bytes(self) -> Seq<u8> {
        framed(self.body())
    }
}

/// The open draw without participants that has the identifier `id`.
pub open spec fn new_draw(id: u64) -> DrawView {
    DrawView {
        id,
        winning_numbers: Seq::empty(),
        draw_time: 0,
        participants: Seq::empty(),
        over: false,
    }
}

/// The draw that a stored record holds, if it holds one: the record must be
/// laid out as [`DrawView::bytes`] lays it out, with nothing left over, and
/// the draw must be valid.
pub open spec fn parse_draw(bytes: Seq<u8>) -> Option<DrawView> {
    match take_frame(bytes) {
        Some(body) => match take_u64(body) {
            Some((id, rest)) => match take_numbers(rest) {
                Some((winning_numbers, rest)) => match take_u64(rest) {
                    Some((draw_time, rest)) => match take_texts(rest) {
                        Some((participants, rest)) => match take_flag(rest) {
                            Some((over, rest)) => {
                                let draw = DrawView {
                                    id,
                                    winning_numbers,
                                    draw_time,
                                    participants,
                                    over,
                                };
                                if rest.len() == 0 && draw.valid() {
                                    Some(draw)
                                } else {
                                    None
                                }
                            },
                            None => None,
                        },
                        None => None,
                    },
                    None => None,
                },
                None => None,
            },
            None => None,
        },
        None => None,
    }
}

/// A lottery draw. Every value of this type is valid.
#[derive(Debug)]
pub struct LotteryDraw {
    id: u64,
    winning_numbers: Vec<u32>,
    draw_time: u64,
    participants: Vec<String>,
    over: bool,
}

impl View for LotteryDraw {
    type V = DrawView;

    closed spec fn view(&self) -> DrawView {
        DrawView {
            id: self.id,
            winning_numbers: self.winning_numbers@,
            draw_time: self.draw_time,
            participants: text_views(self.participants@),
            over: self.over,
        }
    }
}

impl Clone for LotteryDraw {
    fn clone(&self) -> (copy: Self)
        ensures
            copy@ == self@,
    {
        proof {
            use_type_invariant(self);
        }
        LotteryDraw {
            id: self.id,
            winning_numbers: copy_numbers(&self.winning_numbers),
            draw_time: self.draw_time,
            participants: copy_texts(&self.participants),
            over: self.over,
        }
    }
}

impl LotteryDraw {
    #[verifier::type_invariant]
    pub open spec fn well_formed(self) -> bool {
        self@.valid()
    }

    /// The open draw without participants that has the identifier `id`.
    pub fn new(id: u64) -> (draw: LotteryDraw)
        ensures
            draw@ == new_draw(id),
    {
        let draw = LotteryDraw {
            id,
            winning_numbers: Vec::new(),
            draw_time: 0,
            participants: Vec::new(),
            over: false,
        };
        assert(draw@.participants =~= Seq::<Seq<char>>::empty());
        draw
    }

    /// The draw's identifier.
    pub fn id(&self) -> (id: u64)
        ensures
            id == self@.id,
    {
        self.id
    }

    /// The winning numbers: none while the draw is open, six once it is
    /// closed.
    pub fn winning_numbers(&self) -> (winning_numbers: &Vec<u32>)
        ensures
            winning_numbers@ == self@.winning_numbers,
    {
        &self.winning_numbers
    }

    /// The time at which the draw was closed; zero while it is open.
    pub fn draw_time(&self) -> (draw_time: u64)
        ensures
            draw_time == self@.draw_time,
    {
        self.draw_time
    }

    /// The identities of those who bought a ticket, in the order of their
    /// first purchase.
    pub fn participants(&self) -> (participants: &Vec<String>)
        ensures
            text_views(participants@) == self@.participants,
    {
        &self.participants
    }

    /// Whether the draw is closed.
    pub fn over(&self) -> (over: bool)
        ensures
            over == self@.over,
    {
        self.over
    }

    /// The draw with `owner` among its participants, if `owner` can take
    /// part. The draw itself stays as it is.
    pub fn join(&self, owner: &String) -> (joined: Option<LotteryDraw>)
        ensures
            match joined {
                Some(draw) => self@.can_join(owner@) && draw@ == self@.joined(owner@),
                None => !self@.can_join(owner@),
            },
    {
        proof {
            use_type_invariant(self);
        }
        if holds_text(&self.participants, owner) {
            return Some(self.clone());
        }
        let mut participants = copy_texts(&self.participants);
        proof {
            lemma_each_text_push(text_views(participants@), owner@);
            assert(text_views(participants@.push(*owner)) =~= text_views(participants@).push(
                owner@,
            ));
        }
        participants.push(owner.clone());
        match measure_texts(&participants, MAX_RECORD_SIZE - DRAW_FIXED_SIZE) {
            Some(_) => Some(
                LotteryDraw {
                    id: self.id,
                    winning_numbers: copy_numbers(&self.winning_numbers),
                    draw_time: self.draw_time,
                    participants,
                    over: self.over,
                },
            ),
            None => None,
        }
    }

    /// The draw closed at `draw_time` with `winning_numbers`, if it is open
    /// and the numbers are winning numbers. The draw itself stays as it is.
    pub fn close(
        &self,
        winning_numbers: Vec<u32>,
        draw_time: u64,
    ) -> (closed: Option<LotteryDraw>)
        ensures
            match closed {
                Some(draw) => !self@.over && are_winning_numbers(winning_numbers@) && draw@
                    == self@.closed(winning_numbers@, draw_time),
                None => self@.over || !are_winning_numbers(winning_numbers@),
            },
    {
        proof {
            use_type_invariant(self);
        }
        if self.over || !check_winning_numbers(&winning_numbers) {
            return None;
        }
        Some(
            LotteryDraw {
                id: self.id,
                winning_numbers,
                draw_time,
                participants: copy_texts(&self.participants),
                over: true,
            },
        )
    }

    /// The draw's stored record.
    pub fn to_bytes(&self) -> (bytes: Vec<u8>)
        ensures
            bytes@ == self@.bytes(),
            bytes@.len() <= MAX_RECORD_SIZE,
    {
        proof {
            use_type_invariant(self);
            lemma_draw_bytes(self@);
        }
        let mut body = Vec::new();
        put_u64(&mut body, self.id);
        put_numbers(&mut body, &self.winning_numbers);
        put_u64(&mut body, self.draw_time);
        put_texts(&mut body, &self.participants);
        put_flag(&mut body, self.over);
        assert(body@ =~= self@.body());
        frame(&body)
    }

    /// The draw that a stored record holds, if it holds one.
    pub fn from_bytes(bytes: &Vec<u8>) -> (parsed: Option<LotteryDraw>)
        ensures
            match parsed {
                Some(draw) => parse_draw(bytes@) == Some(draw@),
                None => parse_draw(bytes@) is None,
            },
    {
        let at = match read_frame(bytes) {
            Some(at) => at,
            None => { return None; },
        };
        let (id, at) = match read_u64(bytes, at) {
            Some(read) => read,
            None => { return None; },
        };
        let (winning_numbers, at) = match read_numbers(bytes, at) {
            Some(read) => read,
            None => { return None; },
        };
        let (draw_time, at) = match read_u64(bytes, at) {
            Some(read) => read,
            None => { return None; },
        };
        let (participants, at) = match read_texts(bytes, at) {
            Some(read) => read,
            None => { return None; },
        };
        let (over, at) = match read_flag(bytes, at) {
            Some(read) => read,
            None => { return None; },
        };
        if at != bytes.len() {
            return None;
        }
        if over {
            if !check_winning_numbers(&winning_numbers) {
                return None;
            }
        } else {
            if winning_numbers.len() != 0 || draw_time != 0 {
                return None;
            }
        }
        if !all_distinct(&participants) || measure_texts(
            &participants,
            MAX_RECORD_SIZE - DRAW_FIXED_SIZE,
        ).is_none() {
            return None;
        }
        Some(LotteryDraw { id, winning_numbers, draw_time, participants, over })
    }
}

/// Whether `numbers` are winning numbers.
pub fn check_winning_numbers(numbers: &Vec<u32>) -> (valid: bool)
    ensures
        valid == are_winning_numbers(numbers@),
{
    if numbers.len() != WINNING_NUMBERS {
        return false;
    }
    let mut at: usize = 0;
    while at < numbers.len()
        invariant
            at <= numbers@.len(),
            forall|before: int|
                0 <= before < at ==> #[trigger] numbers@[before] < WINNING_BOUND,
        decreases numbers@.len() - at,
    {
        if numbers[at] >= WINNING_BOUND {
            return false;
        }
        at += 1;
    }
    true
}

/// Joining and closing keep a valid draw valid.
pub proof fn lemma_draw_stays_valid(
    draw: DrawView,
    owner: Seq<char>,
    winning_numbers: Seq<u32>,
    draw_time: u64,
)
    requires
        draw.valid(),
    ensures
        draw.can_join(owner) ==> draw.joined(owner).valid(),
        !draw.over && are_winning_numbers(winning_numbers) ==> draw.closed(
            winning_numbers,
            draw_time,
        ).valid(),
        new_draw(draw.id).valid(),
{
    if draw.can_join(owner) && !draw.participants.contains(owner) {
        let longer = draw.participants.push(owner);
        assert forall|a: int, b: int|
            0 <= a < longer.len() && 0 <= b < longer.len() && a != b implies longer[a]
            != longer[b] by {
            if a < draw.participants.len() {
                assert(draw.participants[a] == longer[a]);
            }
            if b < draw.participants.len() {
                assert(draw.participants[b] == longer[b]);
            }
        }
    }
}

/// The stored record of a valid draw has no more bytes than
/// [`draw_size`] says, and exactly as many once the draw is closed.
pub proof fn lemma_draw_bytes(draw: DrawView)
    requires
        draw.valid(),
    ensures
        draw.body().len() + 4 == draw.bytes().len() <= draw_size(draw.participants),
        draw.over ==> draw.bytes().len() == draw_size(draw.participants),
{
    lemma_take_u64(draw.id, Seq::empty());
    lemma_take_numbers(draw.winning_numbers, Seq::empty());
    lemma_take_u64(draw.draw_time, Seq::empty());
    lemma_take_texts(draw.participants, Seq::empty());
    lemma_take_frame(draw.body());
}

/// Reading the stored record of a valid draw gives the draw back.
pub proof fn lemma_draw_round_trip(draw: DrawView)
    requires
        draw.valid(),
    ensures
        parse_draw(draw.bytes()) == Some(draw),
{
    lemma_draw_bytes(draw);
    let body = draw.body();
    lemma_take_frame(body);
    let after_over = Seq::<u8>::empty();
    let after_participants = flag_bytes(draw.over) + after_over;
    let after_time = texts_bytes(draw.participants) + after_participants;
    let after_numbers = u64_bytes(draw.draw_time) + after_time;
    let after_id = numbers_bytes(draw.winning_numbers) + after_numbers;
    assert(body =~= u64_bytes(draw.id) + after_id);
    lemma_take_u64(draw.id, after_id);
    lemma_take_numbers(draw.winning_numbers, after_numbers);
    lemma_take_u64(draw.draw_time, after_time);
    lemma_take_texts(draw.participants, after_participants);
    lemma_take_flag(draw.over, after_over);
}

} // verus!
