use scoped_read::error::{ParseError, ReadEof};
use scoped_read::owned::{FromScope, OwnedScope};
use scoped_read::read::{
    ReadArray, ReadBinary, ReadBinaryDep, ReadFixedSizeDep, ReadScope, ReadUnchecked, U32Be,
};

fn index_pattern(n: u8) -> Vec<u8> {
    let mut data = Vec::new();
    for i in 0..n {
        data.push(0u8);
        data.push(0u8);
        data.push(0u8);
        data.push(i);
    }
    data
}

#[test]
fn test_read_array_iter() {
    let mut data = Vec::new();
    for i in 0..100 {
        data.push(0u8);
        data.push(0u8);
        data.push(0u8);
        data.push(i);
    }

    let mut ctxt = ReadScope::new(&data).ctxt();
    let array = ctxt.read_array::<U32Be>(10).unwrap();
    let mut iter = array.iter();
    while let Some(x) = iter.next() {
        println!("{}", x);
    }
}

#[test]
fn read_array_of_ten_indices() {
    let data = index_pattern(10);
    assert_eq!(data.len(), 40);
    let mut ctxt = ReadScope::new(&data).ctxt();
    let array: ReadArray<U32Be> = ctxt.read_array::<U32Be>(10).unwrap();
    assert_eq!(array.len(), 10);
    assert!(!array.is_empty());
    assert_eq!(ctxt.offset(), 40);
    let mut got = Vec::new();
    let mut iter = array.iter();
    assert_eq!(iter.size_hint(), (10, Some(10)));
    while let Some(x) = iter.next() {
        got.push(x);
    }
    assert_eq!(got, vec![0, 1, 2, 3, 4, 5, 6, 7, 8, 9]);
    assert_eq!(iter.size_hint(), (0, Some(0)));
    assert_eq!(iter.next(), None);
    assert_eq!(array.to_vec(), got);
}

#[test]
fn checked_read_of_three_bytes_is_truncated() {
    let data = [1u8, 2, 3];
    let mut ctxt = ReadScope::new(&data).ctxt();
    assert_eq!(U32Be::read(&mut ctxt), Err(ParseError::BadEof));
    assert_eq!(ctxt.offset(), 0);
}

#[test]
fn empty_scope_at_exact_end() {
    let data = [7u8; 10];
    let scope = ReadScope::new(&data);
    let empty = scope.offset_length(10, 0).unwrap();
    assert_eq!(empty.data().len(), 0);
    assert_eq!(empty.base(), 10);
    assert_eq!(scope.offset_length(11, 0), Err(ParseError::BadOffset));
}

#[test]
fn offset_length_gives_exact_bytes() {
    let data: Vec<u8> = (0u8..20).collect();
    let scope = ReadScope::new(&data);
    assert_eq!(scope.base(), 0);
    let sub = scope.offset_length(5, 7).unwrap();
    assert_eq!(sub.data(), &data[5..12]);
    assert_eq!(sub.base(), 5);
    let inner = sub.offset_length(2, 3).unwrap();
    assert_eq!(inner.data(), &[7u8, 8, 9]);
    assert_eq!(inner.base(), 7);
    let whole = scope.offset_length(0, 20).unwrap();
    assert_eq!(whole.data(), &data[..]);
}

#[test]
fn offset_length_errors() {
    let data = [0u8; 10];
    let scope = ReadScope::new(&data);
    assert_eq!(scope.offset_length(5, 6), Err(ParseError::BadEof));
    assert_eq!(scope.offset_length(0, 11), Err(ParseError::BadEof));
    assert_eq!(scope.offset_length(9, usize::MAX), Err(ParseError::BadEof));
    assert_eq!(scope.offset_length(10, 1), Err(ParseError::BadOffset));
    assert_eq!(scope.offset_length(12, 3), Err(ParseError::BadOffset));
    assert!(scope.offset_length(3, 0).is_ok());
}

#[test]
fn consecutive_reads_advance_by_size() {
    let data = [0x12u8, 0x34, 0x56, 0x78, 0xff, 0xff, 0xff, 0xfe, 0, 0, 1, 0];
    let mut ctxt = ReadScope::new(&data).ctxt();
    assert_eq!(U32Be::read(&mut ctxt), Ok(0x1234_5678));
    assert_eq!(ctxt.offset(), 4);
    assert_eq!(U32Be::read(&mut ctxt), Ok(0xffff_fffe));
    assert_eq!(ctxt.offset(), 8);
    assert_eq!(U32Be::read(&mut ctxt), Ok(256));
    assert_eq!(ctxt.offset(), 12);
    assert_eq!(U32Be::read(&mut ctxt), Err(ParseError::BadEof));
    assert_eq!(ctxt.offset(), 12);
}

#[test]
fn checked_read_past_end_keeps_offset() {
    let data = [1u8, 2, 3, 4, 5, 6];
    let mut ctxt = ReadScope::new(&data).ctxt();
    assert_eq!(U32Be::read(&mut ctxt), Ok(0x0102_0304));
    assert_eq!(U32Be::read(&mut ctxt), Err(ParseError::BadEof));
    assert_eq!(ctxt.offset(), 4);
    let rest = ctxt.read_scope(2).unwrap();
    assert_eq!(rest.data(), &[5u8, 6]);
    assert_eq!(rest.base(), 4);
    assert_eq!(ctxt.offset(), 6);
}

#[test]
fn read_scope_past_end_fails() {
    let data = [1u8, 2, 3];
    let mut ctxt = ReadScope::new(&data).ctxt();
    assert!(matches!(ctxt.read_scope(4), Err(ReadEof {})));
    assert_eq!(ctxt.offset(), 0);
    assert_eq!(ctxt.read_scope(0).unwrap().data().len(), 0);
    assert_eq!(ctxt.read_scope(3).unwrap().data(), &data[..]);
    assert!(ctxt.read_scope(1).is_err());
    assert_eq!(ctxt.read_scope(0).unwrap().base(), 3);
}

#[test]
fn read_array_too_long_fails() {
    let data = index_pattern(3);
    let mut ctxt = ReadScope::new(&data).ctxt();
    assert!(matches!(ctxt.read_array::<U32Be>(4), Err(ParseError::BadEof)));
    assert_eq!(ctxt.offset(), 0);
    assert!(matches!(ctxt.read_array::<U32Be>(usize::MAX), Err(ParseError::BadEof)));
    assert_eq!(ctxt.offset(), 0);
    let empty = ctxt.read_array::<U32Be>(0).unwrap();
    assert!(empty.is_empty());
    assert_eq!(empty.to_vec(), Vec::<u32>::new());
}

#[test]
fn array_elements_match_direct_reads() {
    let data: Vec<u8> = (0u8..24).collect();
    let mut ctxt = ReadScope::new(&data).ctxt();
    let skipped = ctxt.read_scope(4).unwrap();
    assert_eq!(skipped.data(), &[0u8, 1, 2, 3]);
    let array = ctxt.read_array::<U32Be>(5).unwrap();
    let values = array.to_vec();
    assert_eq!(values.len(), 5);
    let direct = ReadScope::new(&data).offset_length(4, 20).unwrap();
    for (i, v) in values.iter().enumerate() {
        let mut c = direct.offset_length(i * 4, 4).unwrap().ctxt();
        assert_eq!(U32Be::read(&mut c), Ok(*v));
    }
    assert_eq!(values[0], 0x0405_0607);
}

#[test]
fn iter_twice_gives_same_sequence() {
    let data = index_pattern(6);
    let array = ReadScope::new(&data).ctxt().read_array::<U32Be>(6).unwrap();
    let mut first = array.iter();
    let mut second = array.iter();
    assert_eq!(first.next(), Some(0));
    assert_eq!(first.next(), Some(1));
    let mut a = vec![0, 1];
    while let Some(x) = first.next() {
        a.push(x);
    }
    let mut b = Vec::new();
    while let Some(x) = second.next() {
        b.push(x);
    }
    assert_eq!(a, b);
    assert_eq!(a, vec![0, 1, 2, 3, 4, 5]);
    let copy = array.clone();
    assert_eq!(copy.to_vec(), a);
}

#[test]
fn owned_scope_round_trip() {
    let buffer = vec![0u8, 0, 1, 2, 9, 9];
    let direct = u32::derive(&ReadScope::new(&buffer));
    let owned = OwnedScope::<u32>::try_new(buffer.clone()).unwrap();
    assert_eq!(Ok(*owned.derived()), direct);
    assert_eq!(*owned.derived(), 258);
    assert_eq!(owned.scope().data(), &buffer[..]);
    assert_eq!(owned.scope().base(), 0);
}

#[test]
fn owned_scope_failure_propagates() {
    let short = vec![1u8, 2];
    assert_eq!(u32::derive(&ReadScope::new(&short)), Err(ParseError::BadEof));
    assert!(matches!(OwnedScope::<u32>::try_new(short), Err(ParseError::BadEof)));
}

#[test]
fn dependent_and_unchecked_paths_agree() {
    let data = [0xdeu8, 0xad, 0xbe, 0xef, 0, 0, 0, 42];
    assert_eq!(<U32Be as ReadFixedSizeDep>::size(()), 4);
    assert_eq!(<U32Be as ReadUnchecked>::fixed_size(), 4);
    let mut ctxt = ReadScope::new(&data).ctxt();
    assert_eq!(U32Be::read_dep(&mut ctxt, ()), Ok(0xdead_beef));
    assert_eq!(U32Be::read_unchecked(&mut ctxt), 42);
    assert_eq!(ctxt.offset(), 8);
}

#[test]
fn read_eof_becomes_bad_eof() {
    assert_eq!(ParseError::from(ReadEof {}), ParseError::BadEof);
}
