use utxo_scanner::csv_loader::{bytes_eq, csv_fields, AddressIndex};
use utxo_scanner::load_from_csv;

#[test]
fn csv_fields_split_at_commas() {
    let line = b"aa,bb,,cc".to_vec();
    let fields = csv_fields(&line);
    assert_eq!(fields.len(), 4);
    assert_eq!(fields[0], b"aa".to_vec());
    assert_eq!(fields[1], b"bb".to_vec());
    assert_eq!(fields[2], Vec::<u8>::new());
    assert_eq!(fields[3], b"cc".to_vec());

    let bare = b"plain".to_vec();
    let fields = csv_fields(&bare);
    assert_eq!(fields.len(), 1);
    assert_eq!(fields[0], b"plain".to_vec());

    let empty = Vec::new();
    let fields = csv_fields(&empty);
    assert_eq!(fields.len(), 1);
    assert_eq!(fields[0], Vec::<u8>::new());
}

#[test]
fn bytes_eq_compares_contents() {
    assert!(bytes_eq(&b"abc".to_vec(), &b"abc".to_vec()));
    assert!(!bytes_eq(&b"abc".to_vec(), &b"abd".to_vec()));
    assert!(!bytes_eq(&b"abc".to_vec(), &b"ab".to_vec()));
    assert!(bytes_eq(&Vec::new(), &Vec::new()));
}

#[test]
fn address_index_groups_line_numbers() {
    let mut index = AddressIndex::new();
    index.add(&b"addr1".to_vec(), 1);
    index.add(&b"addr2".to_vec(), 2);
    index.add(&b"addr1".to_vec(), 3);
    assert_eq!(index.len(), 2);
    assert_eq!(index.get(&b"addr1".to_vec()).unwrap(), &vec![1, 3]);
    assert_eq!(index.get(&b"addr2".to_vec()).unwrap(), &vec![2]);
    assert!(index.get(&b"addr3".to_vec()).is_none());
}

#[test]
fn load_from_csv_groups_by_the_address_field() {
    let lines: Vec<Vec<u8>> = vec![
        b"TXID,VOUT,AMOUNT,ADDRESS,HEIGHT,COINBASE,SIGSCRIPT".to_vec(),
        b"aa,0,5,addr1,100,0,ff".to_vec(),
        b"bb,1,7,addr2,101,0,ee".to_vec(),
        b"cc,0,9,addr1,102,1,dd".to_vec(),
    ];
    let index = load_from_csv(&lines);
    assert_eq!(index.len(), 2);
    assert_eq!(index.get(&b"addr1".to_vec()).unwrap(), &vec![1, 3]);
    assert_eq!(index.get(&b"addr2".to_vec()).unwrap(), &vec![2]);
}

#[test]
fn load_from_csv_of_header_alone_is_empty() {
    let lines: Vec<Vec<u8>> = vec![b"TXID,VOUT,AMOUNT,ADDRESS,HEIGHT,COINBASE,SIGSCRIPT".to_vec()];
    let index = load_from_csv(&lines);
    assert_eq!(index.len(), 0);
}
