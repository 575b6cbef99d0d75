use noise_transport::chain_information::{
    decode_grandpa_authorities, ChainInformation, ChainInformationRef, FinalizedScheduledChange,
    FromGenesisStorageError, GrandpaAuthority, GrandpaConfigError,
};

fn authorities_value(count: usize) -> Vec<u8> {
    let mut v = vec![1u8, (count as u8) << 2];
    for i in 0..count {
        v.extend_from_slice(&[i as u8 + 1; 32]);
        v.extend_from_slice(&(1000u64 + i as u64).to_le_bytes());
    }
    v
}

#[test]
fn genesis_chain_information() {
    let storage = vec![
        (b":code".to_vec(), vec![0u8, 1, 2]),
        (b":grandpa_authorities".to_vec(), authorities_value(2)),
    ];
    let info = ChainInformation::from_genesis_storage(&storage, &[7u8, 8, 9]).unwrap();
    assert_eq!(info.finalized_block_header, vec![7u8, 8, 9]);
    assert_eq!(info.babe_finalized_block1_slot_number, None);
    assert_eq!(info.babe_finalized_block_epoch_information, None);
    assert_eq!(info.babe_finalized_next_epoch_transition, None);
    assert_eq!(info.grandpa_after_finalized_block_authorities_set_id, 0);
    assert!(info.grandpa_finalized_scheduled_changes.is_empty());
    let auth = &info.grandpa_finalized_triggered_authorities;
    assert_eq!(auth.len(), 2);
    assert_eq!(auth[0].public_key, vec![1u8; 32]);
    assert_eq!(auth[0].weight, 1000);
    assert_eq!(auth[1].public_key, vec![2u8; 32]);
    assert_eq!(auth[1].weight, 1001);
}

#[test]
fn first_entry_of_a_key_counts() {
    let storage = vec![
        (b":grandpa_authorities".to_vec(), authorities_value(1)),
        (b":grandpa_authorities".to_vec(), vec![9u8]),
    ];
    let info = ChainInformation::from_genesis_storage(&storage, &[]).unwrap();
    assert_eq!(info.grandpa_finalized_triggered_authorities.len(), 1);
}

#[test]
fn missing_authorities() {
    let storage = vec![(b":code".to_vec(), vec![0u8])];
    assert!(matches!(
        ChainInformation::from_genesis_storage(&storage, &[]),
        Err(FromGenesisStorageError::GrandpaConfigLoad(GrandpaConfigError::NotFound))
    ));
}

#[test]
fn bad_authorities_encoding() {
    let mut wrong_version = authorities_value(1);
    wrong_version[0] = 2;
    let storage = vec![(b":grandpa_authorities".to_vec(), wrong_version)];
    assert!(matches!(
        ChainInformation::from_genesis_storage(&storage, &[]),
        Err(FromGenesisStorageError::GrandpaConfigLoad(GrandpaConfigError::InvalidEncoding))
    ));
    let mut truncated = authorities_value(2);
    truncated.pop();
    assert!(decode_grandpa_authorities(&truncated).is_none());
    let mut extra = authorities_value(2);
    extra.push(0);
    assert!(decode_grandpa_authorities(&extra).is_none());
}

#[test]
fn two_byte_compact_count() {
    let mut v = vec![1u8, 0x01, 0x01];
    for i in 0..64u64 {
        v.extend_from_slice(&[3u8; 32]);
        v.extend_from_slice(&i.to_le_bytes());
    }
    let list = decode_grandpa_authorities(&v).unwrap();
    assert_eq!(list.len(), 64);
    assert_eq!(list[63].weight, 63);
}

#[test]
fn empty_authorities_list() {
    assert_eq!(decode_grandpa_authorities(&[1u8, 0u8]).unwrap().len(), 0);
}

#[test]
fn borrowed_view_round_trip() {
    let info = ChainInformation {
        finalized_block_header: vec![1u8, 2, 3],
        babe_finalized_block1_slot_number: Some(42),
        babe_finalized_block_epoch_information: Some(vec![4u8]),
        babe_finalized_next_epoch_transition: None,
        grandpa_after_finalized_block_authorities_set_id: 5,
        grandpa_finalized_triggered_authorities: vec![GrandpaAuthority {
            public_key: vec![6u8; 32],
            weight: 7,
        }],
        grandpa_finalized_scheduled_changes: vec![FinalizedScheduledChange {
            trigger_block_height: 8,
            new_authorities_list: vec![GrandpaAuthority { public_key: vec![9u8; 32], weight: 10 }],
        }],
    };
    let view = ChainInformationRef::from(&info);
    assert_eq!(view.finalized_block_header, &[1u8, 2, 3][..]);
    assert_eq!(view.babe_finalized_block_epoch_information, Some(&[4u8][..]));
    let back = ChainInformation::from(view);
    assert_eq!(back.finalized_block_header, info.finalized_block_header);
    assert_eq!(back.babe_finalized_block1_slot_number, Some(42));
    assert_eq!(back.babe_finalized_block_epoch_information, Some(vec![4u8]));
    assert_eq!(back.babe_finalized_next_epoch_transition, None);
    assert_eq!(back.grandpa_after_finalized_block_authorities_set_id, 5);
    assert_eq!(back.grandpa_finalized_triggered_authorities, info.grandpa_finalized_triggered_authorities);
    assert_eq!(back.grandpa_finalized_scheduled_changes.len(), 1);
    assert_eq!(back.grandpa_finalized_scheduled_changes[0].trigger_block_height, 8);
    assert_eq!(back.grandpa_finalized_scheduled_changes[0].new_authorities_list[0].weight, 10);
}
