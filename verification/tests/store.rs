use txn_store::codec::{decode_transaction, encode_transaction};
use txn_store::service::{
    _get_transaction, create_transaction, delete_transaction, do_insert, get_transaction,
    update_transaction_status,
};
use txn_store::store::{issued_count, next_id, store_init};
use txn_store::transaction::{Error, Transaction, TransactionPayload};

fn payload(phone: &str, amount: u32) -> TransactionPayload {
    TransactionPayload { phone_number: phone.to_string(), amount }
}

#[test]
fn scenario_lifecycle() {
    let mut s = store_init();
    let t = create_transaction(&mut s, payload("0812xxxx", 100), 1_000_000).unwrap();
    assert_eq!(t.id, 0);
    assert_eq!(t.phone_number, "0812xxxx");
    assert_eq!(t.amount, 100);
    assert_eq!(t.created_at, 1_000_000);
    assert_eq!(t.status, "Pending");

    let u = match update_transaction_status(&mut s, 0, "Success".to_string()) {
        Ok(u) => u,
        Err(_) => panic!("update of an existing id must succeed"),
    };
    assert_eq!(u.id, 0);
    assert_eq!(u.status, "Success");
    assert_eq!(u.amount, 100);
    assert_eq!(u.phone_number, "0812xxxx");
    assert_eq!(u.created_at, 1_000_000);

    let d = match delete_transaction(&mut s, 0) {
        Ok(d) => d,
        Err(_) => panic!("delete of an existing id must succeed"),
    };
    assert!(d == u);

    match get_transaction(&s, 0) {
        Ok(_) => panic!("the record was deleted"),
        Err(Error::NotFound { msg }) => {
            assert!(msg.contains("id=0"));
            assert_eq!(msg, "Transaction with id=0 not found");
        },
    }
}

#[test]
fn create_ids_strictly_increase_and_never_repeat() {
    let mut s = store_init();
    let mut ids = Vec::new();
    for i in 0..5 {
        let t = create_transaction(&mut s, payload("p", i), 42).unwrap();
        ids.push(t.id);
    }
    assert_eq!(ids, vec![0, 1, 2, 3, 4]);
    // A deleted identifier is never reissued.
    delete_transaction(&mut s, 4).unwrap();
    delete_transaction(&mut s, 2).unwrap();
    let t = create_transaction(&mut s, payload("p", 9), 42).unwrap();
    assert_eq!(t.id, 5);
    assert_eq!(issued_count(&s), 6);
}

#[test]
fn create_then_read_returns_equal_record() {
    let mut s = store_init();
    create_transaction(&mut s, payload("first", 1), 10).unwrap();
    let t = create_transaction(&mut s, payload("0899-second", 250), 987_654_321).unwrap();
    let r = get_transaction(&s, t.id).unwrap();
    assert!(r == t);
    let r2 = _get_transaction(&s, &t.id).unwrap();
    assert!(r2 == t);
}

#[test]
fn read_never_issued_id_returns_not_found() {
    let s = store_init();
    match get_transaction(&s, 42) {
        Ok(_) => panic!("nothing was ever created"),
        Err(Error::NotFound { msg }) => assert_eq!(msg, "Transaction with id=42 not found"),
    }
    let mut s = store_init();
    create_transaction(&mut s, payload("p", 7), 3).unwrap();
    match get_transaction(&s, 1_234_567_890) {
        Ok(_) => panic!("this id was never issued"),
        Err(Error::NotFound { msg }) => {
            assert_eq!(msg, "Transaction with id=1234567890 not found")
        },
    }
    assert!(_get_transaction(&s, &99).is_none());
}

#[test]
fn update_changes_only_status() {
    let mut s = store_init();
    let a = create_transaction(&mut s, payload("0810000000", 11), 500).unwrap();
    let b = create_transaction(&mut s, payload("0820000000", 22), 600).unwrap();
    let u = update_transaction_status(&mut s, a.id, "Failed".to_string()).unwrap();
    assert_eq!(u.id, a.id);
    assert_eq!(u.phone_number, a.phone_number);
    assert_eq!(u.amount, a.amount);
    assert_eq!(u.created_at, a.created_at);
    assert_eq!(u.status, "Failed");
    // The other record is untouched.
    let b2 = get_transaction(&s, b.id).unwrap();
    assert!(b2 == b);
    // The update is persisted.
    let a2 = get_transaction(&s, a.id).unwrap();
    assert!(a2 == u);
}

#[test]
fn update_absent_id_returns_not_found_and_changes_nothing() {
    let mut s = store_init();
    let t = create_transaction(&mut s, payload("p", 5), 8).unwrap();
    match update_transaction_status(&mut s, 3, "Success".to_string()) {
        Ok(_) => panic!("id 3 was never issued"),
        Err(Error::NotFound { msg }) => {
            assert_eq!(msg, "Cannot update transaction with id=3. Not found.")
        },
    }
    let t2 = get_transaction(&s, t.id).unwrap();
    assert!(t2 == t);
}

#[test]
fn delete_then_read_returns_not_found() {
    let mut s = store_init();
    let t = create_transaction(&mut s, payload("p", 5), 8).unwrap();
    let d = delete_transaction(&mut s, t.id).unwrap();
    assert!(d == t);
    assert!(get_transaction(&s, t.id).is_err());
    assert!(_get_transaction(&s, &t.id).is_none());
}

#[test]
fn delete_absent_id_returns_not_found_and_changes_nothing() {
    let mut s = store_init();
    let t = create_transaction(&mut s, payload("p", 5), 8).unwrap();
    match delete_transaction(&mut s, 7) {
        Ok(_) => panic!("id 7 was never issued"),
        Err(Error::NotFound { msg }) => {
            assert_eq!(msg, "Cannot delete transaction with id=7. Not found.")
        },
    }
    let t2 = get_transaction(&s, t.id).unwrap();
    assert!(t2 == t);
}

#[test]
fn codec_round_trip() {
    let t = Transaction {
        id: 77,
        phone_number: "call \u{0e42}\u{0e17}\u{0e23} 0812 \u{2713}".to_string(),
        amount: 4_000_000_000,
        created_at: u64::MAX,
        status: "Failed".to_string(),
    };
    let b = encode_transaction(&t).unwrap();
    assert!(b.len() <= 512);
    let t2 = decode_transaction(b.as_slice()).unwrap();
    assert!(t2 == t);
}

#[test]
fn codec_round_trip_empty_strings() {
    let t = Transaction {
        id: 0,
        phone_number: String::new(),
        amount: 0,
        created_at: 0,
        status: String::new(),
    };
    let b = encode_transaction(&t).unwrap();
    assert_eq!(b.len(), 28);
    let t2 = decode_transaction(b.as_slice()).unwrap();
    assert!(t2 == t);
}

#[test]
fn encode_rejects_record_over_slot_size() {
    let t = Transaction {
        id: 1,
        phone_number: "x".repeat(485),
        amount: 1,
        created_at: 1,
        status: "Pending".to_string(),
    };
    assert!(encode_transaction(&t).is_none());
    // The largest record that still fits is accepted.
    let t2 = Transaction {
        id: 1,
        phone_number: "x".repeat(477),
        amount: 1,
        created_at: 1,
        status: "Pending".to_string(),
    };
    let b = encode_transaction(&t2).unwrap();
    assert_eq!(b.len(), 512);
}

#[test]
fn decode_rejects_bytes_that_are_no_encoding() {
    assert!(decode_transaction(&[]).is_none());
    assert!(decode_transaction(&[0u8; 27]).is_none());
    // 28 zero bytes decode: id 0, amount 0, created_at 0, two empty strings.
    let z = decode_transaction(&[0u8; 28]).unwrap();
    assert_eq!(z.id, 0);
    assert_eq!(z.phone_number, "");
    // A phone length that overruns the buffer is rejected.
    let mut b = vec![0u8; 28];
    b[20] = 200;
    assert!(decode_transaction(b.as_slice()).is_none());
    // A status length that disagrees with the remainder is rejected.
    let mut b = vec![0u8; 29];
    b[24] = 0;
    assert!(decode_transaction(b.as_slice()).is_none());
    // Invalid UTF-8 in a string field is rejected.
    let mut b = vec![0u8; 29];
    b[20] = 1;
    b[24] = 0xff;
    assert!(decode_transaction(b.as_slice()).is_none());
}

#[test]
fn do_insert_overwrites_at_the_record_id() {
    let mut s = store_init();
    let id = next_id(&mut s);
    assert_eq!(id, 0);
    let t = Transaction {
        id,
        phone_number: "081".to_string(),
        amount: 9,
        created_at: 5,
        status: "Pending".to_string(),
    };
    do_insert(&mut s, &t);
    let r = get_transaction(&s, id).unwrap();
    assert!(r == t);
    let t2 = Transaction { status: "Success".to_string(), ..t };
    do_insert(&mut s, &t2);
    let r2 = get_transaction(&s, id).unwrap();
    assert!(r2 == t2);
}

#[test]
fn next_id_counts_up_from_zero() {
    let mut s = store_init();
    assert_eq!(issued_count(&s), 0);
    assert_eq!(next_id(&mut s), 0);
    assert_eq!(next_id(&mut s), 1);
    assert_eq!(next_id(&mut s), 2);
    assert_eq!(issued_count(&s), 3);
}
