use sirf_rs::{Error, SIRD};

#[test]
fn test_magic() {
    let r0_0: [u8; 8] = [0x53, 0x49, 0x52, 0x44, 0x00, 0x00, 0x00, 0x00];
    let r0_1: [u8; 8] = [0x53, 0x49, 0x52, 0x43, 0x00, 0x00, 0x00, 0x00];
    assert_eq!(SIRD::from_bytes(&r0_0).ok().map(|d| d.count), Some(0));
    assert_eq!(SIRD::from_bytes(&r0_1).err(), Some(Error::BadMagicNumber));
}

#[test]
fn test_data_len() {
    let r0_2: [u8; 6] = [0x53, 0x49, 0x52, 0x44, 0x00, 0x00];
    let r0_3: [u8; 10] = [0x53, 0x49, 0x52, 0x44, 0x00, 0x00, 0x01, 0x04, 0x7, 0x9];
    assert_eq!(SIRD::from_bytes(&r0_2).err(), Some(Error::NotEnoughBytes));
    assert_eq!(SIRD::from_bytes(&r0_3).ok().map(|d| d.count), Some(260));
    assert_eq!(SIRD::from_bytes(&r0_3).ok().map(|d| d.len()), Some(260));
    assert_eq!(SIRD::from_bytes(&r0_3).ok().map(|d| d.data.len()), Some(2));
    assert_eq!(SIRD::from_bytes(&r0_3).ok().map(|d| d.data[0]), Some(7));
}

#[test]
fn test_empty() {
    let r0_0: [u8; 8] = [0x53, 0x49, 0x52, 0x44, 0x00, 0x00, 0x00, 0x00];
    let sird = SIRD::from_bytes(&r0_0).unwrap();
    let mut it = sird.iter();
    let mut count = 0;
    while let Some(_) = it.next() {
        count += 1;
    }
    assert_eq!(count, 0);
}

#[test]
fn test_foo_bar() {
    let r1: [u8; 25] = [
        0x53, 0x49, 0x52, 0x44, 0x00, 0x00, 0x00, 0x01, /* 1 entry */
        0x00, 0x00, 0x00, 0x00, 0x00, 0x00, 0x00, 0x03, 0x00, 0x03,
        /* "foo" */ 0x66, 0x6f, 0x6f, 0x00, /* "bar" */ 0x62, 0x61, 0x72,
    ];
    let sird = SIRD::from_bytes(&r1).unwrap();
    {
        let mut it = sird.iter();
        let rec0 = it.next().unwrap().unwrap();
        assert_eq!(rec0.name, "foo");
        assert_eq!(rec0.data, &[0x62, 0x61, 0x72]);
        assert_eq!(it.remaining, 0);
        assert_eq!(it.data.len(), 0);
        assert_eq!(it.next().is_none(), true);
    }
}

#[test]
fn test_hi_sird() {
    let r2: [u8; 39] = [
        0x53, 0x49, 0x52, 0x44, 0x00, 0x00, 0x00, 0x02, /* 2 entries */
        0x00, 0x00, 0x00, 0x00, 0x00, 0x00, 0x00, 0x01, 0x00, 0x02,
        /* "hi" */ 0x68, 0x69, 0x00, 123, 0x00, 0x00, 0x00, 0x00, 0x00, 0x00, 0x00, 0x02, 0x00,
        0x04, /* "sird" */ 0x73, 0x69, 0x72, 0x64, 0x00, 45, 67,
    ];
    let sird = SIRD::from_bytes(&r2).unwrap();
    let mut recs = Vec::new();
    let mut it = sird.iter();
    while let Some(r) = it.next() {
        recs.push(r.unwrap());
    }
    assert_eq!(recs.len(), 2);
    assert_eq!(recs[0].name, "hi");
    assert_eq!(recs[0].data, &[123]);
    assert_eq!(recs[1].name, "sird");
    assert_eq!(recs[1].data, &[45, 67]);
}

#[test]
fn test_malform() {
    let r3: [u8; 20] = [
        0x53, 0x49, 0x52, 0x44, 0x00, 0x00, 0x00, 0x06, /* 6 entries */
        0x00, 0x00, 0x00, 0x00, 0x00, 0x00, 0x00, 0x01, 0x00, 0x02, /* "hi" */ 0x68, 0x69,
    ];
    let sird = SIRD::from_bytes(&r3).unwrap();
    let mut ress = Vec::new();
    let mut it = sird.iter();
    while let Some(r) = it.next() {
        ress.push(r);
    }
    assert_eq!(ress.len(), 1);
    assert_eq!(&ress[0].as_ref().err(), &Some(&Error::NotEnoughBytes));
}
