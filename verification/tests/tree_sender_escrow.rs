use reth_components::tree_sender_escrow::{deposit, take};
use std::any::Any;

fn downcast<T: 'static>(sender: Box<dyn Any>) -> Option<T> {
    sender.downcast::<T>().ok().map(|sender| *sender)
}

#[test]
fn a_deposit_is_taken_once() {
    let mut slot: Option<Box<dyn Any>> = None;
    assert_eq!(take(&mut slot, downcast::<u32>), None);
    deposit(&mut slot, Box::new(5u32));
    assert_eq!(take(&mut slot, downcast::<u32>), Some(5));
    assert_eq!(take(&mut slot, downcast::<u32>), None);
}

#[test]
fn a_second_deposit_overwrites_the_first() {
    let mut slot: Option<Box<dyn Any>> = None;
    deposit(&mut slot, Box::new(5u32));
    deposit(&mut slot, Box::new(6u32));
    assert_eq!(take(&mut slot, downcast::<u32>), Some(6));
    assert_eq!(take(&mut slot, downcast::<u32>), None);
}

#[test]
fn a_deposit_of_another_type_is_lost() {
    let mut slot: Option<Box<dyn Any>> = None;
    deposit(&mut slot, Box::new(5u32));
    assert_eq!(take(&mut slot, downcast::<String>), None);
    assert_eq!(take(&mut slot, downcast::<u32>), None);
}
