use std::any::TypeId;
use std::sync::mpsc;

use orbtk_core::adapter::{MessageAdapter, MessageError, WindowRequest};
use orbtk_core::buckets::TypeBuckets;
use orbtk_core::entity::Entity;
use orbtk_core::message::MessageBox;
use orbtk_core::reader::{MessageIterator, MessageReader};
use orbtk_core::store::MessageStore;

fn drain_all<M: std::any::Any + Send>(it: &mut MessageIterator<M>) -> Vec<M> {
    let mut out = Vec::new();
    while let Some(item) = it.next() {
        out.push(item.unwrap());
    }
    out
}

#[test]
fn downcast_same_type_returns_original() {
    let b = MessageBox::new(String::from("hello"), Entity(3));
    assert_eq!(b.downcast::<String>(), Ok(String::from("hello")));
}

#[test]
fn downcast_other_type_fails() {
    let b = MessageBox::new(7_i32, Entity(3));
    assert_eq!(b.downcast::<String>(), Err(String::from("Wrong message type")));
    let b = MessageBox::new(7_i32, Entity(3));
    assert_eq!(b.downcast::<u32>(), Err(String::from("Wrong message type")));
}

#[test]
fn downcast_ref_checks_type() {
    let b = MessageBox::new(5_u64, Entity(1));
    assert_eq!(b.downcast_ref::<u64>(), Ok(&5_u64));
    assert_eq!(b.downcast_ref::<i64>(), Err(String::from("Wrong message type")));
    assert_eq!(b.downcast(), Ok(5_u64));
}

#[test]
fn box_accessors() {
    let b = MessageBox::new(String::from("x"), Entity(9));
    assert_eq!(b.target(), Entity(9));
    assert_eq!(b.message_type(), TypeId::of::<String>());
    assert!(b.is_type::<String>());
    assert!(!b.is_type::<i32>());
    assert!(b.has_tag(&TypeId::of::<String>()));
    assert!(!b.has_tag(&TypeId::of::<u8>()));
}

#[test]
fn scenario_two_types_one_entity() {
    let (tx, _rx) = mpsc::channel();
    let adapter = MessageAdapter::new(tx);
    let e1 = Entity(1);
    adapter.send_message(String::from("a"), e1).unwrap();
    adapter.send_message(42_i32, e1).unwrap();
    adapter.send_message(String::from("b"), e1).unwrap();
    let mut reader = adapter.message_reader(e1);
    assert_eq!(reader.entity(), e1);
    assert!(reader.contains_type::<String>());
    assert!(reader.contains_type::<i32>());
    let mut strings = reader.read::<String>();
    assert_eq!(strings.next(), Some(Ok(String::from("a"))));
    assert_eq!(strings.next(), Some(Ok(String::from("b"))));
    assert_eq!(strings.next(), None);
    let mut ints = reader.read::<i32>();
    assert_eq!(ints.next(), Some(Ok(42)));
    assert_eq!(ints.next(), None);
    assert!(reader.is_empty());
}

#[test]
fn interleaved_senders_keep_order_per_entity() {
    let (tx, _rx) = mpsc::channel();
    let adapter = MessageAdapter::new(tx);
    let other = adapter.clone();
    let (e1, e2) = (Entity(1), Entity(2));
    for i in 0..1000_u32 {
        adapter.send_message(i, e1).unwrap();
        other.send_message(i + 5000, e2).unwrap();
    }
    assert_eq!(adapter.entities(), vec![e1, e2]);
    let got1 = drain_all(&mut adapter.message_reader(e1).read::<u32>());
    let got2 = drain_all(&mut other.message_reader(e2).read::<u32>());
    assert_eq!(got1, (0..1000).collect::<Vec<u32>>());
    assert_eq!(got2, (5000..6000).collect::<Vec<u32>>());
    assert!(adapter.is_empty());
}

#[test]
fn fifo_within_one_bucket() {
    let (tx, _rx) = mpsc::channel();
    let adapter = MessageAdapter::new(tx);
    let e = Entity(4);
    for s in ["one", "two", "three", "four"] {
        adapter.send_message(String::from(s), e).unwrap();
    }
    let got = drain_all(&mut adapter.message_reader(e).read::<String>());
    assert_eq!(got, vec!["one", "two", "three", "four"]);
}

#[test]
fn drain_never_shows_other_entities() {
    let (tx, _rx) = mpsc::channel();
    let adapter = MessageAdapter::new(tx);
    adapter.send_message(1_i32, Entity(1)).unwrap();
    adapter.send_message(2_i32, Entity(2)).unwrap();
    adapter.send_message(3_i32, Entity(1)).unwrap();
    let got = drain_all(&mut adapter.message_reader(Entity(1)).read::<i32>());
    assert_eq!(got, vec![1, 3]);
    let got = drain_all(&mut adapter.message_reader(Entity(2)).read::<i32>());
    assert_eq!(got, vec![2]);
}

#[test]
fn drained_entity_not_listed_until_new_message() {
    let (tx, _rx) = mpsc::channel();
    let adapter = MessageAdapter::new(tx);
    let (e1, e2) = (Entity(1), Entity(2));
    adapter.send_message(1_u8, e1).unwrap();
    adapter.send_message(1_u8, e2).unwrap();
    let _reader = adapter.message_reader(e1);
    assert_eq!(adapter.entities(), vec![e2]);
    adapter.send_message(2_u8, e2).unwrap();
    assert_eq!(adapter.entities(), vec![e2]);
    adapter.send_message(3_u8, e1).unwrap();
    assert_eq!(adapter.entities(), vec![e1, e2]);
}

#[test]
fn read_twice_gives_empty_second_time() {
    let (tx, _rx) = mpsc::channel();
    let adapter = MessageAdapter::new(tx);
    let e = Entity(8);
    adapter.send_message(String::from("p"), e).unwrap();
    adapter.send_message(String::from("q"), e).unwrap();
    let mut reader = adapter.message_reader(e);
    let first = drain_all(&mut reader.read::<String>());
    assert_eq!(first, vec!["p", "q"]);
    assert!(!reader.contains_type::<String>());
    let mut second = reader.read::<String>();
    assert_eq!(second.next(), None);
}

#[test]
fn discard_then_drain_is_empty() {
    let (tx, _rx) = mpsc::channel();
    let adapter = MessageAdapter::new(tx);
    let e = Entity(5);
    adapter.send_message(String::from("gone"), e).unwrap();
    adapter.send_message(10_i64, e).unwrap();
    adapter.remove_message_for_entity(e);
    assert!(adapter.entities().is_empty());
    let reader = adapter.message_reader(e);
    assert!(reader.is_empty());
    assert!(!reader.contains_type::<String>());
}

#[test]
fn each_send_requests_a_redraw() {
    let (tx, rx) = mpsc::channel();
    let adapter = MessageAdapter::new(tx);
    adapter.send_message(1_i32, Entity(1)).unwrap();
    adapter.send_message(2_i32, Entity(2)).unwrap();
    assert_eq!(rx.try_recv(), Ok(WindowRequest::Redraw));
    assert_eq!(rx.try_recv(), Ok(WindowRequest::Redraw));
    assert!(rx.try_recv().is_err());
}

#[test]
fn closed_channel_is_reported() {
    let (tx, rx) = mpsc::channel();
    let adapter = MessageAdapter::new(tx);
    drop(rx);
    assert_eq!(adapter.send_message(1_i32, Entity(1)), Err(MessageError::ChannelClosed));
    assert_eq!(adapter.len(), 1);
}

#[test]
fn adapter_len_counts_entities() {
    let (tx, _rx) = mpsc::channel();
    let adapter = MessageAdapter::new(tx);
    assert!(adapter.is_empty());
    assert_eq!(adapter.len(), 0);
    adapter.send_message(1_i32, Entity(1)).unwrap();
    adapter.send_message(2_i32, Entity(1)).unwrap();
    adapter.send_message(String::from("s"), Entity(6)).unwrap();
    assert_eq!(adapter.len(), 2);
    assert!(!adapter.is_empty());
}

#[test]
fn store_lists_entities_in_id_order() {
    let mut store = MessageStore::new();
    store.push(MessageBox::new(1_i32, Entity(30)));
    store.push(MessageBox::new(1_i32, Entity(10)));
    store.push(MessageBox::new(1_i32, Entity(20)));
    store.push(MessageBox::new(2_i32, Entity(10)));
    assert_eq!(store.entities(), vec![Entity(10), Entity(20), Entity(30)]);
    assert_eq!(store.len(), 3);
    store.discard(Entity(20));
    assert_eq!(store.entities(), vec![Entity(10), Entity(30)]);
    let mut buckets = store.take(Entity(10));
    let got = buckets.take(&TypeId::of::<i32>());
    assert_eq!(got.len(), 2);
    assert_eq!(store.len(), 1);
    assert!(!store.is_empty());
    let _ = store.take(Entity(30));
    assert!(store.is_empty());
}

#[test]
fn buckets_group_by_type() {
    let mut buckets = TypeBuckets::new();
    assert!(buckets.is_empty());
    buckets.push(MessageBox::new(1_i32, Entity(1)));
    buckets.push(MessageBox::new(String::from("s"), Entity(1)));
    buckets.push(MessageBox::new(2_i32, Entity(1)));
    assert!(buckets.contains(&TypeId::of::<i32>()));
    assert!(buckets.contains(&TypeId::of::<String>()));
    assert!(!buckets.contains(&TypeId::of::<u8>()));
    let ints = buckets.take(&TypeId::of::<i32>());
    let values: Vec<i32> = ints.into_iter().map(|b| b.downcast::<i32>().unwrap()).collect();
    assert_eq!(values, vec![1, 2]);
    assert!(!buckets.contains(&TypeId::of::<i32>()));
    assert!(buckets.take(&TypeId::of::<i32>()).is_empty());
    assert!(!buckets.is_empty());
}

#[test]
fn reader_reads_by_tag() {
    let mut buckets = TypeBuckets::new();
    buckets.push(MessageBox::new(String::from("t"), Entity(2)));
    let mut reader = MessageReader::new(buckets, Entity(2));
    assert_eq!(reader.entity(), Entity(2));
    assert!(reader.contains_tag(&TypeId::of::<String>()));
    let taken = reader.read_tag(&TypeId::of::<String>());
    assert_eq!(taken.len(), 1);
    assert!(!reader.contains_tag(&TypeId::of::<String>()));
    assert!(reader.is_empty());
}

#[test]
fn entity_id() {
    assert_eq!(Entity(17).id(), 17);
    assert!(Entity(1) < Entity(2));
}

fn shareable<T: Send + Sync + Clone>() {}

#[test]
fn adapter_can_be_shared_between_threads() {
    shareable::<MessageAdapter>();
}
