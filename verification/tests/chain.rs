use bitcoin::absolute::LockTime;
use bitcoin::hashes::Hash as ByteHash;
use bitcoin::transaction::Version;
use bitcoin::{Address, Amount, OutPoint, ScriptBuf, Sequence, Txid, Witness};
use ordinals::{Edict, Etching, Rune, RuneId, Runestone};
use runehook::chain::{Network, Transaction, TxIn, TxOut};
use runehook::mempool::decipher::{
    collect_eligible_outputs, decipher_mempool_tx, decode_receivers, spent_outputs,
};
use runehook::mempool::watch::{
    claim, start_zeromq_runloop, txid_to_string, WatchAction, WatchEvent, WatchState, WatchedTx,
};
use runehook::runes::{Artifact, RuneId as LedgerRuneId};

fn p2wpkh(byte: u8) -> ScriptBuf {
    let mut script = vec![0x00, 0x14];
    script.extend_from_slice(&[byte; 20]);
    ScriptBuf::from_bytes(script)
}

fn transaction(outputs: Vec<ScriptBuf>) -> bitcoin::Transaction {
    bitcoin::Transaction {
        version: Version(2),
        lock_time: LockTime::from_consensus(77),
        input: vec![bitcoin::TxIn {
            previous_output: OutPoint { txid: Txid::from_byte_array([7; 32]), vout: 3 },
            script_sig: ScriptBuf::from_bytes(vec![0x51]),
            sequence: Sequence(0xfffffffd),
            witness: Witness::from_slice(&[vec![1u8, 2, 3]]),
        }],
        output: outputs
            .into_iter()
            .map(|script_pubkey| bitcoin::TxOut { value: Amount::from_sat(546), script_pubkey })
            .collect(),
    }
}

fn message(data: Vec<u8>) -> (WatchState, WatchAction) {
    start_zeromq_runloop(
        WatchState::Receiving,
        WatchEvent::Message(vec![b"rawtx".to_vec(), data, vec![0, 0, 0, 0]]),
    )
}

fn received(tx: &bitcoin::Transaction) -> WatchedTx {
    match message(bitcoin::consensus::serialize(tx)) {
        (WatchState::Claiming(watched), WatchAction::Claim(tx_id)) => {
            assert_eq!(watched.tx_id, tx_id);
            watched
        }
        _ => panic!("the message holds a transaction"),
    }
}

fn received_tx(tx: &bitcoin::Transaction) -> Transaction {
    received(tx).tx
}

#[test]
fn message_with_a_transaction_is_claimed_under_its_id() {
    let tx = transaction(vec![p2wpkh(1)]);
    let watched = received(&tx);
    assert_eq!(watched.tx_id, tx.compute_txid().to_string());
    assert_eq!(
        watched.tx,
        Transaction {
            version: 2,
            lock_time: 77,
            inputs: vec![TxIn {
                txid: [7; 32],
                vout: 3,
                script_sig: vec![0x51],
                sequence: 0xfffffffd,
            }],
            outputs: vec![TxOut { value: 546, script_pubkey: p2wpkh(1).into_bytes() }],
        }
    );
}

#[test]
fn message_without_a_transaction_is_passed_over() {
    let passed_over = (WatchState::Receiving, WatchAction::Receive);
    assert_eq!(message(vec![1, 2, 3]), passed_over);
    let mut bytes = bitcoin::consensus::serialize(&transaction(vec![p2wpkh(1)]));
    bytes.push(0);
    assert_eq!(message(bytes), passed_over);
    assert_eq!(claim(None), passed_over);
}

#[test]
fn transaction_id_is_written_last_byte_first() {
    let mut hash = [0u8; 32];
    hash[0] = 0xab;
    hash[31] = 0x01;
    let text = txid_to_string(&hash);
    assert!(text.starts_with("0100"));
    assert!(text.ends_with("00ab"));
    assert_eq!(text.len(), 64);
}

#[test]
fn spent_outputs_are_listed_in_order() {
    let tx = received_tx(&transaction(vec![p2wpkh(1)]));
    let spent = spent_outputs(&tx.inputs);
    assert_eq!(spent.len(), 1);
    assert_eq!(spent[0].input_index, 0);
    assert_eq!(spent[0].tx_id, "07".repeat(32));
    assert_eq!(spent[0].output, 3);
}

#[test]
fn eligible_outputs_are_those_that_are_no_op_return() {
    let tx = received_tx(&transaction(vec![
        p2wpkh(1),
        ScriptBuf::from_bytes(vec![0x6a, 0x01, 0x02]),
        ScriptBuf::new(),
        p2wpkh(2),
    ]));
    let scripts = collect_eligible_outputs(&tx.outputs);
    let mut keys: Vec<u32> = scripts.keys().cloned().collect();
    keys.sort();
    assert_eq!(keys, vec![0, 2, 3]);
    assert_eq!(scripts[&3], p2wpkh(2).into_bytes());
}

#[test]
fn receivers_are_the_addresses_of_the_network() {
    let tx = received_tx(&transaction(vec![p2wpkh(1), ScriptBuf::new()]));
    let scripts = collect_eligible_outputs(&tx.outputs);
    for (network, theirs) in [
        (Network::Bitcoin, bitcoin::Network::Bitcoin),
        (Network::Testnet, bitcoin::Network::Testnet),
        (Network::Testnet4, bitcoin::Network::Testnet4),
        (Network::Signet, bitcoin::Network::Signet),
        (Network::Regtest, bitcoin::Network::Regtest),
    ] {
        let receivers = decode_receivers(&scripts, network);
        let address = Address::from_script(&p2wpkh(1), theirs).unwrap().to_string();
        assert_eq!(receivers[&0], Some(address));
        assert_eq!(receivers[&1], None);
        assert_eq!(receivers.len(), 2);
    }
}

#[test]
fn mainnet_address_is_written_in_bech32() {
    let tx = received_tx(&transaction(vec![p2wpkh(0)]));
    let receivers = decode_receivers(&collect_eligible_outputs(&tx.outputs), Network::Bitcoin);
    assert_eq!(receivers[&0], Some("bc1qqqqqqqqqqqqqqqqqqqqqqqqqqqqqqqqq9e75rs".to_string()));
}

#[test]
fn transaction_without_a_message_is_not_deciphered() {
    let tx = received_tx(&transaction(vec![p2wpkh(1)]));
    assert!(decipher_mempool_tx(&tx, Network::Bitcoin).is_none());
}

#[test]
fn runestone_is_deciphered() {
    let stone = Runestone {
        edicts: vec![Edict { id: RuneId { block: 840000, tx: 3 }, amount: 25, output: 1 }],
        pointer: Some(1),
        ..Default::default()
    };
    let tx = received_tx(&transaction(vec![stone.encipher(), p2wpkh(1)]));
    let message = decipher_mempool_tx(&tx, Network::Bitcoin).unwrap();
    let Artifact::Runestone { edicts, pointer } = message.artifact else {
        panic!("the message is well-formed");
    };
    assert_eq!(edicts.len(), 1);
    assert_eq!(edicts[0].id, LedgerRuneId { block: 840000, tx: 3 });
    assert_eq!(edicts[0].amount, 25);
    assert_eq!(edicts[0].output, 1);
    assert_eq!(pointer, Some(1));
    assert_eq!(message.total_outputs, 2);
    assert_eq!(message.receivers.len(), 1);
    assert!(message.receivers[&1].is_some());
}

#[test]
fn cenotaph_is_deciphered_with_the_rune_it_etches() {
    // A pointer past the outputs and an etching make a malformed message.
    let stone = Runestone {
        etching: Some(Etching { rune: Some(Rune(99)), ..Default::default() }),
        pointer: Some(9),
        ..Default::default()
    };
    let tx = received_tx(&transaction(vec![stone.encipher(), p2wpkh(1)]));
    let message = decipher_mempool_tx(&tx, Network::Bitcoin).unwrap();
    assert_eq!(message.artifact, Artifact::Cenotaph { etching: Some(99) });
}

#[test]
fn rune_ids_read_back() {
    for id in [
        LedgerRuneId { block: 0, tx: 0 },
        LedgerRuneId { block: 840000, tx: 7 },
        LedgerRuneId { block: u64::MAX, tx: u32::MAX },
    ] {
        assert_eq!(LedgerRuneId::from_text(&id.to_text()), Some(id));
    }
    assert_eq!(LedgerRuneId { block: 840000, tx: 7 }.to_text(), "840000:7");
    for text in ["", ":", "1", "1:", ":1", "1:2:3", "a:1", "1:4294967296", "18446744073709551616:0"] {
        assert_eq!(LedgerRuneId::from_text(text), None);
    }
}
