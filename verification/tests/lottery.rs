use ic_stable_structures::memory_manager::{MemoryId, MemoryManager};
use ic_stable_structures::{Cell, DefaultMemoryImpl, StableBTreeMap};
use icp_rust_boilerplate_backend::draw::LotteryDraw;
use icp_rust_boilerplate_backend::lottery::{Lottery, LotteryError, Missing};
use icp_rust_boilerplate_backend::store::{Counter, RecordStore, MAX_RECORD_SIZE};
use icp_rust_boilerplate_backend::ticket::LotteryTicket;

const ALICE: &str = "2vxsx-fae";
const BOB: &str = "aaaaa-aa";

fn lottery_in(memory: &DefaultMemoryImpl, first_ticket: u64, first_draw: u64) -> Lottery {
    let regions = MemoryManager::init(memory.clone());
    let ticket_ids = Counter {
        cell: Cell::init(regions.get(MemoryId::new(0)), first_ticket).expect("a counter cell"),
    };
    let draw_ids = Counter {
        cell: Cell::init(regions.get(MemoryId::new(1)), first_draw).expect("a counter cell"),
    };
    let tickets = RecordStore {
        map: StableBTreeMap::init(regions.get(MemoryId::new(2))),
    };
    let draws = RecordStore {
        map: StableBTreeMap::init(regions.get(MemoryId::new(3))),
    };
    Lottery::new(ticket_ids, draw_ids, tickets, draws)
}

fn lottery() -> Lottery {
    lottery_in(&DefaultMemoryImpl::default(), 0, 0)
}

fn buy(lottery: &mut Lottery, draw_id: u64, owner: &str, now: u64) -> LotteryTicket {
    lottery
        .buy_lottery_ticket(vec![1, 2, 3, 4, 5, 6], draw_id, owner.to_string(), now)
        .expect("a ticket")
}

fn stored_draw(lottery: &Lottery, id: u64) -> LotteryDraw {
    lottery
        .get_all_lottery_draws()
        .expect("draws")
        .into_iter()
        .find(|draw| draw.id() == id)
        .expect("the draw is stored")
}

#[test]
fn created_draw_is_open_and_empty() {
    let mut lottery = lottery();
    let draw = lottery.create_lottery_draw().expect("a draw");
    assert_eq!(draw.id(), 0);
    assert!(draw.winning_numbers().is_empty());
    assert_eq!(draw.draw_time(), 0);
    assert!(draw.participants().is_empty());
    assert!(!draw.over());
    assert_eq!(lottery.create_lottery_draw().expect("a draw").id(), 1);
    let stored = lottery.find_open_draw(0).expect("open");
    assert!(stored.participants().is_empty());
    assert!(!stored.over());
}

#[test]
fn ticket_holds_what_was_bought() {
    let mut lottery = lottery();
    lottery.create_lottery_draw().expect("a draw");
    let draw = lottery.create_lottery_draw().expect("a draw");
    let ticket = lottery
        .buy_lottery_ticket(vec![49, 1, 7, 7, 30, 12], draw.id(), ALICE.to_string(), 1234)
        .expect("a ticket");
    assert_eq!(ticket.id(), 0);
    assert_eq!(ticket.owner(), ALICE);
    assert_eq!(ticket.numbers(), &vec![49, 1, 7, 7, 30, 12]);
    assert_eq!(ticket.created_at(), 1234);
    assert_eq!(ticket.updated_at(), None);
    assert_eq!(ticket.lottery_draw_num(), 1);
    let stored = lottery.check_lottery_ticket(0).expect("stored");
    assert_eq!(stored.owner(), ALICE);
    assert_eq!(stored.numbers(), &vec![49, 1, 7, 7, 30, 12]);
    assert_eq!(stored.created_at(), 1234);
    assert_eq!(stored.lottery_draw_num(), 1);
    assert_eq!(stored_draw(&lottery, 1).participants(), &vec![ALICE.to_string()]);
    assert!(stored_draw(&lottery, 0).participants().is_empty());
}

#[test]
fn invalid_numbers_buy_nothing() {
    let mut lottery = lottery();
    let draw = lottery.create_lottery_draw().expect("a draw");
    let wrong: Vec<Vec<u32>> = vec![
        vec![],
        vec![1, 2, 3, 4, 5],
        vec![1, 2, 3, 4, 5, 6, 7],
        vec![0, 2, 3, 4, 5, 6],
        vec![1, 2, 3, 4, 5, 50],
        vec![1, 2, 3, u32::MAX, 5, 6],
    ];
    for numbers in wrong {
        let refused = lottery.buy_lottery_ticket(numbers, draw.id(), ALICE.to_string(), 5);
        assert_eq!(refused.err(), Some(LotteryError::InvalidNumbers));
    }
    assert_eq!(
        lottery.get_all_lottery_tickets().err(),
        Some(LotteryError::NotFound(Missing::Tickets))
    );
    assert!(stored_draw(&lottery, draw.id()).participants().is_empty());
    assert_eq!(buy(&mut lottery, draw.id(), ALICE, 5).id(), 0);
}

#[test]
fn invalid_numbers_are_reported_before_a_missing_draw() {
    let mut lottery = lottery();
    let refused = lottery.buy_lottery_ticket(vec![0; 6], 3, ALICE.to_string(), 5);
    assert_eq!(refused.err(), Some(LotteryError::InvalidNumbers));
}

#[test]
fn no_ticket_for_a_missing_draw() {
    let mut lottery = lottery();
    lottery.create_lottery_draw().expect("a draw");
    let refused = lottery.buy_lottery_ticket(vec![1, 2, 3, 4, 5, 6], 3, ALICE.to_string(), 5);
    assert_eq!(refused.err(), Some(LotteryError::NotFound(Missing::Draw(3))));
    assert!(lottery.get_all_lottery_tickets().is_err());
}

#[test]
fn same_buyer_is_listed_once() {
    let mut lottery = lottery();
    let draw = lottery.create_lottery_draw().expect("a draw");
    let first = buy(&mut lottery, draw.id(), ALICE, 10);
    let second = buy(&mut lottery, draw.id(), ALICE, 11);
    assert_ne!(first.id(), second.id());
    assert_eq!((first.id(), second.id()), (0, 1));
    let stored = stored_draw(&lottery, draw.id());
    assert_eq!(stored.participants(), &vec![ALICE.to_string()]);
    assert_eq!(lottery.get_all_lottery_tickets().expect("tickets").len(), 2);
}

#[test]
fn buyers_are_listed_in_order_of_first_purchase() {
    let mut lottery = lottery();
    let draw = lottery.create_lottery_draw().expect("a draw");
    buy(&mut lottery, draw.id(), BOB, 10);
    buy(&mut lottery, draw.id(), ALICE, 11);
    buy(&mut lottery, draw.id(), BOB, 12);
    let stored = stored_draw(&lottery, draw.id());
    assert_eq!(stored.participants(), &vec![BOB.to_string(), ALICE.to_string()]);
}

#[test]
fn missing_ticket_is_not_found() {
    let mut lottery = lottery();
    let draw = lottery.create_lottery_draw().expect("a draw");
    buy(&mut lottery, draw.id(), ALICE, 10);
    assert!(lottery.check_lottery_ticket(0).is_ok());
    assert_eq!(
        lottery.check_lottery_ticket(1).err(),
        Some(LotteryError::NotFound(Missing::Ticket(1)))
    );
}

#[test]
fn conducted_draw_is_closed_with_six_numbers() {
    let mut lottery = lottery();
    let draw = lottery.create_lottery_draw().expect("a draw");
    buy(&mut lottery, draw.id(), ALICE, 10);
    let closed = lottery.conduct_lottery_draw(draw.id(), Some([0; 32]), 99).expect("closed");
    assert!(closed.over());
    assert_eq!(closed.draw_time(), 99);
    assert_eq!(closed.winning_numbers(), &vec![5, 25, 16, 1, 38, 20]);
    assert_eq!(closed.participants(), &vec![ALICE.to_string()]);
    let stored = stored_draw(&lottery, draw.id());
    assert!(stored.over());
    assert_eq!(stored.draw_time(), 99);
    assert_eq!(stored.winning_numbers(), &vec![5, 25, 16, 1, 38, 20]);
}

#[test]
fn same_seed_gives_the_same_numbers() {
    let seed: [u8; 32] = core::array::from_fn(|at| at as u8);
    let mut numbers = Vec::new();
    for run in 0..2u64 {
        let mut lottery = lottery();
        let draw = lottery.create_lottery_draw().expect("a draw");
        buy(&mut lottery, draw.id(), ALICE, run);
        let closed = lottery.conduct_lottery_draw(draw.id(), Some(seed), run).expect("closed");
        numbers.push(closed.winning_numbers().clone());
    }
    assert_eq!(numbers[0], numbers[1]);
    assert_eq!(numbers[0], vec![27, 34, 7, 39, 11, 36]);
}

#[test]
fn zero_seed_scenario_is_reproducible() {
    let mut outcomes = Vec::new();
    for _ in 0..2 {
        let mut lottery = lottery();
        let draw = lottery.create_lottery_draw().expect("a draw");
        let ticket = buy(&mut lottery, draw.id(), ALICE, 1);
        assert_eq!(ticket.numbers(), &vec![1, 2, 3, 4, 5, 6]);
        let closed = lottery.conduct_lottery_draw(draw.id(), Some([0; 32]), 2).expect("closed");
        outcomes.push(closed.winning_numbers().clone());
    }
    assert_eq!(outcomes[0], outcomes[1]);
    assert_eq!(outcomes[0].len(), 6);
    assert!(outcomes[0].iter().all(|number| *number < 49));
}

#[test]
fn closed_draw_is_not_conducted_again() {
    let mut lottery = lottery();
    let draw = lottery.create_lottery_draw().expect("a draw");
    lottery.conduct_lottery_draw(draw.id(), Some([0; 32]), 99).expect("closed");
    let again = lottery.conduct_lottery_draw(draw.id(), Some([7; 32]), 100);
    assert_eq!(again.err(), Some(LotteryError::LotteryDrawOver));
    let stored = stored_draw(&lottery, draw.id());
    assert!(stored.over());
    assert_eq!(stored.draw_time(), 99);
    assert_eq!(stored.winning_numbers(), &vec![5, 25, 16, 1, 38, 20]);
    assert_eq!(lottery.find_open_draw(draw.id()).err(), Some(LotteryError::LotteryDrawOver));
}

#[test]
fn no_ticket_for_a_closed_draw() {
    let mut lottery = lottery();
    let draw = lottery.create_lottery_draw().expect("a draw");
    buy(&mut lottery, draw.id(), ALICE, 10);
    lottery.conduct_lottery_draw(draw.id(), Some([0; 32]), 99).expect("closed");
    let refused = lottery.buy_lottery_ticket(vec![1, 2, 3, 4, 5, 6], 0, BOB.to_string(), 100);
    assert_eq!(refused.err(), Some(LotteryError::LotteryDrawOver));
    assert_eq!(stored_draw(&lottery, 0).participants(), &vec![ALICE.to_string()]);
    assert_eq!(lottery.get_all_lottery_tickets().expect("tickets").len(), 1);
}

#[test]
fn missing_draw_is_not_conducted() {
    let mut lottery = lottery();
    let refused = lottery.conduct_lottery_draw(4, Some([0; 32]), 99);
    assert_eq!(refused.err(), Some(LotteryError::NotFound(Missing::Draw(4))));
    assert_eq!(
        lottery.find_open_draw(4).err(),
        Some(LotteryError::NotFound(Missing::Draw(4)))
    );
}

#[test]
fn draw_stays_open_without_a_seed() {
    let mut lottery = lottery();
    let draw = lottery.create_lottery_draw().expect("a draw");
    buy(&mut lottery, draw.id(), ALICE, 10);
    let refused = lottery.conduct_lottery_draw(draw.id(), None, 99);
    assert_eq!(refused.err(), Some(LotteryError::RandomnessUnavailable));
    let stored = stored_draw(&lottery, draw.id());
    assert!(!stored.over());
    assert!(stored.winning_numbers().is_empty());
    assert_eq!(stored.draw_time(), 0);
    assert!(lottery.conduct_lottery_draw(draw.id(), Some([0; 32]), 100).is_ok());
}

#[test]
fn closed_draw_is_reported_before_a_missing_seed() {
    let mut lottery = lottery();
    let draw = lottery.create_lottery_draw().expect("a draw");
    lottery.conduct_lottery_draw(draw.id(), Some([0; 32]), 99).expect("closed");
    let refused = lottery.conduct_lottery_draw(draw.id(), None, 100);
    assert_eq!(refused.err(), Some(LotteryError::LotteryDrawOver));
}

#[test]
fn empty_lottery_has_nothing_to_list() {
    let lottery = lottery();
    assert_eq!(
        lottery.get_all_lottery_tickets().err(),
        Some(LotteryError::NotFound(Missing::Tickets))
    );
    assert_eq!(
        lottery.get_all_lottery_draws().err(),
        Some(LotteryError::NotFound(Missing::Draws))
    );
}

#[test]
fn everything_is_listed_in_order_of_id() {
    let mut lottery = lottery();
    for _ in 0..3 {
        lottery.create_lottery_draw().expect("a draw");
    }
    buy(&mut lottery, 2, ALICE, 10);
    buy(&mut lottery, 0, BOB, 11);
    buy(&mut lottery, 2, BOB, 12);
    let tickets = lottery.get_all_lottery_tickets().expect("tickets");
    let listed: Vec<(u64, u64)> =
        tickets.iter().map(|ticket| (ticket.id(), ticket.lottery_draw_num())).collect();
    assert_eq!(listed, vec![(0, 2), (1, 0), (2, 2)]);
    let draws = lottery.get_all_lottery_draws().expect("draws");
    let listed: Vec<(u64, usize)> =
        draws.iter().map(|draw| (draw.id(), draw.participants().len())).collect();
    assert_eq!(listed, vec![(0, 1), (1, 0), (2, 2)]);
}

#[test]
fn owner_too_long_for_a_ticket_is_refused() {
    let mut lottery = lottery();
    let draw = lottery.create_lottery_draw().expect("a draw");
    let owner = "o".repeat(MAX_RECORD_SIZE - 61 + 1);
    let refused = lottery.buy_lottery_ticket(vec![1, 2, 3, 4, 5, 6], draw.id(), owner, 10);
    assert_eq!(refused.err(), Some(LotteryError::RecordTooLarge));
    assert!(lottery.get_all_lottery_tickets().is_err());
    assert!(stored_draw(&lottery, draw.id()).participants().is_empty());
}

#[test]
fn full_draw_takes_known_buyers_only() {
    let mut lottery = lottery();
    let draw = lottery.create_lottery_draw().expect("a draw");
    let long = |tag: char| tag.to_string().repeat(300);
    for tag in ['a', 'b', 'c'] {
        let bought = lottery.buy_lottery_ticket(vec![1, 2, 3, 4, 5, 6], draw.id(), long(tag), 10);
        assert!(bought.is_ok());
    }
    let refused = lottery.buy_lottery_ticket(vec![1, 2, 3, 4, 5, 6], draw.id(), long('d'), 11);
    assert_eq!(refused.err(), Some(LotteryError::RecordTooLarge));
    assert_eq!(lottery.get_all_lottery_tickets().expect("tickets").len(), 3);
    assert_eq!(stored_draw(&lottery, draw.id()).participants().len(), 3);
    let again = lottery.buy_lottery_ticket(vec![1, 2, 3, 4, 5, 6], draw.id(), long('b'), 12);
    assert_eq!(again.expect("a ticket").id(), 3);
    let short =
        lottery.buy_lottery_ticket(vec![1, 2, 3, 4, 5, 6], draw.id(), ALICE.to_string(), 13);
    assert!(short.is_ok());
}

#[test]
fn fullest_draw_can_still_be_conducted() {
    let mut lottery = lottery();
    let draw = lottery.create_lottery_draw().expect("a draw");
    let room = MAX_RECORD_SIZE - 53;
    let first = "a".repeat(room - 4 - 5);
    buy(&mut lottery, draw.id(), &first, 1);
    let refused =
        lottery.buy_lottery_ticket(vec![1, 2, 3, 4, 5, 6], draw.id(), "bb".to_string(), 2);
    assert_eq!(refused.err(), Some(LotteryError::RecordTooLarge));
    buy(&mut lottery, draw.id(), "b", 3);
    assert_eq!(stored_draw(&lottery, draw.id()).to_bytes().len(), MAX_RECORD_SIZE - 24);
    let closed = lottery.conduct_lottery_draw(draw.id(), Some([0; 32]), 4).expect("closed");
    assert_eq!(closed.to_bytes().len(), MAX_RECORD_SIZE);
    assert_eq!(stored_draw(&lottery, draw.id()).participants().len(), 2);
}

#[test]
fn no_ticket_and_no_draw_without_an_id() {
    let mut lottery = lottery_in(&DefaultMemoryImpl::default(), u64::MAX, u64::MAX - 1);
    let draw = lottery.create_lottery_draw().expect("a draw");
    assert_eq!(draw.id(), u64::MAX - 1);
    assert_eq!(lottery.create_lottery_draw().err(), Some(LotteryError::IdsExhausted));
    let refused =
        lottery.buy_lottery_ticket(vec![1, 2, 3, 4, 5, 6], draw.id(), ALICE.to_string(), 1);
    assert_eq!(refused.err(), Some(LotteryError::IdsExhausted));
    assert!(stored_draw(&lottery, draw.id()).participants().is_empty());
    assert!(lottery.get_all_lottery_tickets().is_err());
}

#[test]
fn lottery_survives_restart() {
    let memory = DefaultMemoryImpl::default();
    {
        let mut lottery = lottery_in(&memory, 0, 0);
        let draw = lottery.create_lottery_draw().expect("a draw");
        buy(&mut lottery, draw.id(), ALICE, 10);
        lottery.create_lottery_draw().expect("a draw");
    }
    let mut lottery = lottery_in(&memory, 0, 0);
    assert_eq!(lottery.check_lottery_ticket(0).expect("stored").owner(), ALICE);
    assert_eq!(lottery.create_lottery_draw().expect("a draw").id(), 2);
    assert_eq!(buy(&mut lottery, 0, BOB, 11).id(), 1);
    assert_eq!(stored_draw(&lottery, 0).participants(), &vec![ALICE.to_string(), BOB.to_string()]);
}

#[test]
fn ticket_record_has_the_stated_layout() {
    let ticket = LotteryTicket::new(2, "ab".to_string(), vec![1, 2, 3, 4, 5, 49], 7, 9)
        .expect("a ticket");
    let mut expected: Vec<u8> = vec![59, 0, 0, 0];
    expected.extend([2, 0, 0, 0, 0, 0, 0, 0]);
    expected.extend([2, 0, 0, 0]);
    expected.extend(b"ab");
    expected.extend([6, 0, 0, 0]);
    for number in [1u8, 2, 3, 4, 5, 49] {
        expected.extend([number, 0, 0, 0]);
    }
    expected.extend([7, 0, 0, 0, 0, 0, 0, 0]);
    expected.push(0);
    expected.extend([9, 0, 0, 0, 0, 0, 0, 0]);
    assert_eq!(ticket.to_bytes(), expected);
    assert_eq!(expected.len(), 61 + 2);
    let read = LotteryTicket::from_bytes(&expected).expect("a ticket record");
    assert_eq!(read.owner(), "ab");
    assert_eq!(read.updated_at(), None);
}

#[test]
fn updated_ticket_record_reads_back() {
    let ticket = LotteryTicket::new(2, "ab".to_string(), vec![1, 2, 3, 4, 5, 49], 7, 9)
        .expect("a ticket");
    let plain = ticket.to_bytes();
    let mut updated: Vec<u8> = vec![67, 0, 0, 0];
    updated.extend(&plain[4..54]);
    updated.push(1);
    updated.extend([8, 0, 0, 0, 0, 0, 0, 0]);
    updated.extend(&plain[55..]);
    let read = LotteryTicket::from_bytes(&updated).expect("a ticket record");
    assert_eq!(read.updated_at(), Some(8));
    assert_eq!(read.lottery_draw_num(), 9);
    assert_eq!(read.to_bytes(), updated);
    let mut wrong_flag = updated.clone();
    wrong_flag[54] = 2;
    assert!(LotteryTicket::from_bytes(&wrong_flag).is_none());
}

#[test]
fn malformed_ticket_records_are_refused() {
    let ticket = LotteryTicket::new(2, "ab".to_string(), vec![1, 2, 3, 4, 5, 49], 7, 9)
        .expect("a ticket");
    let good = ticket.to_bytes();
    assert!(LotteryTicket::from_bytes(&good[..good.len() - 1].to_vec()).is_none());
    let mut zero = good.clone();
    zero[22] = 0;
    assert!(LotteryTicket::from_bytes(&zero).is_none());
    let mut high = good.clone();
    high[22] = 50;
    assert!(LotteryTicket::from_bytes(&high).is_none());
    let mut five = good.clone();
    five[18] = 5;
    assert!(LotteryTicket::from_bytes(&five).is_none());
}

#[test]
fn draw_record_has_the_stated_layout() {
    let draw = LotteryDraw::new(5).join(&"ab".to_string()).expect("room");
    let mut open: Vec<u8> = vec![31, 0, 0, 0];
    open.extend([5, 0, 0, 0, 0, 0, 0, 0]);
    open.extend([0, 0, 0, 0]);
    open.extend([0, 0, 0, 0, 0, 0, 0, 0]);
    open.extend([1, 0, 0, 0]);
    open.extend([2, 0, 0, 0]);
    open.extend(b"ab");
    open.push(0);
    assert_eq!(draw.to_bytes(), open);
    assert_eq!(open.len(), 53 + 4 + 2 - 24);
    let closed = draw.close(vec![5, 25, 16, 1, 38, 20], 99).expect("open");
    let mut expected: Vec<u8> = vec![55, 0, 0, 0];
    expected.extend([5, 0, 0, 0, 0, 0, 0, 0]);
    expected.extend([6, 0, 0, 0]);
    for number in [5u8, 25, 16, 1, 38, 20] {
        expected.extend([number, 0, 0, 0]);
    }
    expected.extend([99, 0, 0, 0, 0, 0, 0, 0]);
    expected.extend([1, 0, 0, 0]);
    expected.extend([2, 0, 0, 0]);
    expected.extend(b"ab");
    expected.push(1);
    assert_eq!(closed.to_bytes(), expected);
    assert_eq!(expected.len(), 53 + 4 + 2);
    let read = LotteryDraw::from_bytes(&expected).expect("a draw record");
    assert!(read.over());
    assert_eq!(read.participants(), &vec!["ab".to_string()]);
    assert_eq!(read.winning_numbers(), &vec![5, 25, 16, 1, 38, 20]);
}

#[test]
fn malformed_draw_records_are_refused() {
    let draw = LotteryDraw::new(5)
        .join(&"ab".to_string())
        .and_then(|draw| draw.join(&"cd".to_string()))
        .expect("room");
    let good = draw.to_bytes();
    assert!(LotteryDraw::from_bytes(&good).is_some());
    let mut twice = good.clone();
    twice[38] = b'a';
    twice[39] = b'b';
    assert!(LotteryDraw::from_bytes(&twice).is_none());
    let mut timed = good.clone();
    timed[16] = 1;
    assert!(LotteryDraw::from_bytes(&timed).is_none());
    let mut over_without_numbers = good.clone();
    let last = over_without_numbers.len() - 1;
    over_without_numbers[last] = 1;
    assert!(LotteryDraw::from_bytes(&over_without_numbers).is_none());
    let closed = draw.close(vec![5, 25, 16, 1, 38, 20], 99).expect("open").to_bytes();
    let mut out_of_range = closed.clone();
    out_of_range[16] = 49;
    assert!(LotteryDraw::from_bytes(&out_of_range).is_none());
}

#[test]
fn draw_moves_from_open_to_closed_once() {
    let draw = LotteryDraw::new(5);
    assert!(draw.close(vec![1, 2, 3], 9).is_none());
    assert!(draw.close(vec![1, 2, 3, 4, 5, 49], 9).is_none());
    let closed = draw.close(vec![0, 48, 3, 4, 5, 6], 9).expect("open");
    assert!(closed.over());
    assert!(closed.close(vec![0, 48, 3, 4, 5, 6], 10).is_none());
    let joined = closed.join(&ALICE.to_string()).expect("room");
    assert!(joined.over());
    assert_eq!(joined.winning_numbers(), &vec![0, 48, 3, 4, 5, 6]);
}
