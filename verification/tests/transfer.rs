use hdstp::channel::PacketStream;
use hdstp::codec::{u32_to_be_bytes, Packet, PacketType};
use hdstp::engine::{Client, ClientState, Server, ServerState};
use hdstp::errors::TransferError;
use hdstp::retry::with_retry;
use hdstp::transfer::{run_session, send_with_retry, Fault, FileTransfer, SessionReport};

#[test]
fn test_basic_transfer() -> Result<(), TransferError> {
    let mut file_transfer = FileTransfer::new();
    file_transfer.start_server()?;
    let test_data = b"Test data".to_vec();
    file_transfer.send_file(test_data)?;
    Ok(())
}

#[test]
fn test_large_transfer() -> Result<(), TransferError> {
    let mut file_transfer = FileTransfer::new();
    file_transfer.start_server()?;
    let test_data = vec![0u8; 102400];
    file_transfer.send_file(test_data)?;
    Ok(())
}

#[test]
fn test_retry_mechanism() -> Result<(), TransferError> {
    let test_data = b"Test retry data".to_vec();
    send_with_retry(test_data, 3)?;
    Ok(())
}

#[test]
fn lossless_session_closes_with_no_retries() {
    let payload = b"one chunk".to_vec();
    let report: SessionReport = run_session(&payload, 16, None);
    assert_eq!(report.result.unwrap(), payload);
    assert_eq!(report.nak_cycles, 0);
    assert_eq!(report.retransmissions, 0);
    assert_eq!(report.client_state, ClientState::Closed);
    assert_eq!(report.server_state, ServerState::Closed);
}

#[test]
fn empty_payload_still_handshakes_and_closes() {
    let report = run_session(&Vec::new(), 8, None);
    assert_eq!(report.result.unwrap(), Vec::<u8>::new());
    assert_eq!(report.nak_cycles, 0);
    assert_eq!(report.client_state, ClientState::Closed);
    assert_eq!(report.server_state, ServerState::Closed);
}

#[test]
fn corrupted_data_packet_costs_one_nak_cycle() {
    let payload = b"Hello, this is a test file transfer!".to_vec();
    let fault = Fault { chunk: 2, byte: 3, bit: 5 };
    let report = run_session(&payload, 8, Some(fault));
    assert_eq!(report.result.unwrap(), payload);
    assert_eq!(report.nak_cycles, 1);
    assert_eq!(report.retransmissions, 1);
    assert_eq!(report.client_state, ClientState::Closed);
    assert_eq!(report.server_state, ServerState::Closed);
}

#[test]
fn full_transfer_reassembles_the_demo_payload() {
    let payload = b"Hello, this is a test file transfer!".to_vec();
    let report = run_session(&payload, 8, None);
    assert_eq!(report.result.unwrap(), payload);
}

#[test]
fn with_retry_on_a_silent_channel_spends_the_whole_budget() {
    let mut incoming = PacketStream::new();
    let mut outgoing = PacketStream::new();
    let request = Packet::new(PacketType::Syn, 0, Vec::new());
    let outcome = with_retry(&mut incoming, &mut outgoing, Some(&request), 1000, 3);
    assert_eq!(outcome.attempts, 3);
    assert!(outcome.response.is_none());
    // The request was re-sent on every attempt.
    assert_eq!(outgoing.len(), 3);
}

#[test]
fn with_retry_returns_the_queued_response_on_the_first_attempt() {
    let mut incoming = PacketStream::new();
    let mut outgoing = PacketStream::new();
    incoming.write(Packet::new(PacketType::Ack, 7, Vec::new()));
    let request = Packet::new(PacketType::Data, 1, vec![1, 2, 3]);
    let outcome = with_retry(&mut incoming, &mut outgoing, Some(&request), 1000, 3);
    assert_eq!(outcome.attempts, 1);
    assert_eq!(outcome.response.unwrap().packet_type, PacketType::Ack);
}

#[test]
fn send_with_retry_with_zero_budget_reports_exhaustion() {
    assert_eq!(
        send_with_retry(b"data".to_vec(), 0),
        Err(TransferError::RetriesExhausted)
    );
}

#[test]
fn client_handshake_accepts_a_syn_ack() {
    let mut client = Client::new();
    let mut incoming = PacketStream::new();
    let mut outgoing = PacketStream::new();
    incoming.write(Packet::new(PacketType::SynAck, 99, u32_to_be_bytes(99)));
    client.handshake(&mut incoming, &mut outgoing, 1000, 3).unwrap();
    assert_eq!(client.state, ClientState::Established);
    assert_eq!(client.peer_sequence, 99);
    // SYN then the acknowledging ACK went out.
    assert_eq!(outgoing.len(), 2);
}

#[test]
fn client_handshake_rejects_a_wrong_kind() {
    let mut client = Client::new();
    let mut incoming = PacketStream::new();
    let mut outgoing = PacketStream::new();
    incoming.write(Packet::new(PacketType::Nak, 0, Vec::new()));
    let r = client.handshake(&mut incoming, &mut outgoing, 1000, 3);
    assert_eq!(r, Err(TransferError::ProtocolViolation));
    assert_eq!(client.state, ClientState::Error);
}

#[test]
fn client_handshake_times_out_on_a_silent_channel() {
    let mut client = Client::new();
    let mut incoming = PacketStream::new();
    let mut outgoing = PacketStream::new();
    let r = client.handshake(&mut incoming, &mut outgoing, 1000, 3);
    assert_eq!(r, Err(TransferError::RetriesExhausted));
    assert_eq!(client.state, ClientState::Error);
    // The SYN went out once per attempt.
    assert_eq!(outgoing.len(), 3);
}

#[test]
fn client_handshake_rejects_a_short_syn_ack_payload() {
    let mut client = Client::new();
    let mut incoming = PacketStream::new();
    let mut outgoing = PacketStream::new();
    incoming.write(Packet::new(PacketType::SynAck, 99, vec![0x01, 0x02]));
    let r = client.handshake(&mut incoming, &mut outgoing, 1000, 3);
    assert_eq!(
        r,
        Err(TransferError::Frame(hdstp::errors::FrameError::Truncated))
    );
    assert_eq!(client.state, ClientState::Error);
}

#[test]
fn client_send_data_retransmits_after_a_nak() {
    let mut client = Client::new();
    client.state = ClientState::Established;
    client.local_sequence = 10;
    let mut incoming = PacketStream::new();
    let mut outgoing = PacketStream::new();
    incoming.write(Packet::new(PacketType::Nak, 0, Vec::new()));
    incoming.write(Packet::new(PacketType::Ack, 0, Vec::new()));
    let chunk = vec![1u8, 2, 3];
    client.send_data(&mut incoming, &mut outgoing, &chunk, 1000, 3).unwrap();
    assert_eq!(client.local_sequence, 11);
    // DATA, then one RETRANSMISSION with the same sequence number.
    let first = outgoing.read().unwrap();
    let second = outgoing.read().unwrap();
    assert_eq!(first.packet_type, PacketType::Data);
    assert_eq!(second.packet_type, PacketType::Retransmission);
    assert_eq!(first.sequence_no, second.sequence_no);
}

#[test]
fn client_send_data_exhausts_its_budget_on_endless_naks() {
    let mut client = Client::new();
    client.state = ClientState::Established;
    let mut incoming = PacketStream::new();
    let mut outgoing = PacketStream::new();
    for _ in 0..3 {
        incoming.write(Packet::new(PacketType::Nak, 0, Vec::new()));
    }
    let chunk = vec![9u8];
    let r = client.send_data(&mut incoming, &mut outgoing, &chunk, 1000, 3);
    assert_eq!(r, Err(TransferError::RetriesExhausted));
    assert_eq!(client.state, ClientState::Error);
}

#[test]
fn server_recieve_runs_a_whole_session() {
    let mut server = Server::new();
    let isn = server.local_sequence;
    let mut incoming = PacketStream::new();
    let mut outgoing = PacketStream::new();
    incoming.write(Packet::new(PacketType::Syn, 0, Vec::new()));
    incoming.write(Packet::new(PacketType::Ack, isn, Vec::new()));
    incoming.write(Packet::new(PacketType::Data, 1, b"abcd".to_vec()));
    incoming.write(Packet::new(PacketType::Data, 2, b"ef".to_vec()));
    incoming.write(Packet::new(PacketType::Fin, 3, Vec::new()));
    incoming.write(Packet::new(PacketType::Ack, 4, Vec::new()));
    let bytes = server.recieve(&mut incoming, &mut outgoing, 1000, 3).unwrap();
    assert_eq!(bytes, b"abcdef".to_vec());
    assert_eq!(server.state, ServerState::Closed);
}

#[test]
fn server_recieve_skips_a_corrupted_chunk() {
    let mut server = Server::new();
    let isn = server.local_sequence;
    let mut incoming = PacketStream::new();
    let mut outgoing = PacketStream::new();
    incoming.write(Packet::new(PacketType::Syn, 0, Vec::new()));
    incoming.write(Packet::new(PacketType::Ack, isn, Vec::new()));
    let mut corrupted = Packet::new(PacketType::Data, 1, b"abcd".to_vec());
    corrupted.data[0] ^= 0x01;
    incoming.write(corrupted);
    incoming.write(Packet::new(PacketType::Retransmission, 1, b"abcd".to_vec()));
    incoming.write(Packet::new(PacketType::Fin, 2, Vec::new()));
    incoming.write(Packet::new(PacketType::Ack, 3, Vec::new()));
    let bytes = server.recieve(&mut incoming, &mut outgoing, 1000, 3).unwrap();
    assert_eq!(bytes, b"abcd".to_vec());
}

#[test]
fn server_rejects_a_wrong_handshake_echo() {
    let mut server = Server::new();
    let isn = server.local_sequence;
    let mut incoming = PacketStream::new();
    let mut outgoing = PacketStream::new();
    incoming.write(Packet::new(PacketType::Syn, 0, Vec::new()));
    incoming.write(Packet::new(PacketType::Ack, isn.wrapping_add(1), Vec::new()));
    let r = server.handshake(&mut incoming, &mut outgoing, 1000, 3);
    assert_eq!(r, Err(TransferError::ProtocolViolation));
    assert_eq!(server.state, ServerState::Error);
}

#[test]
fn client_transmit_over_a_scripted_peer() {
    let mut client = Client::new();
    let mut incoming = PacketStream::new();
    let mut outgoing = PacketStream::new();
    // SYN_ACK with the responder's initial sequence number, one ACK per
    // 8-byte chunk of the 9-byte payload, then the teardown ACK and FIN.
    incoming.write(Packet::new(PacketType::SynAck, 5, u32_to_be_bytes(5)));
    incoming.write(Packet::new(PacketType::Ack, 0, Vec::new()));
    incoming.write(Packet::new(PacketType::Ack, 0, Vec::new()));
    incoming.write(Packet::new(PacketType::Ack, 0, Vec::new()));
    incoming.write(Packet::new(PacketType::Fin, 0, Vec::new()));
    let r = client.transmit(&mut incoming, &mut outgoing, b"nine byte".to_vec());
    assert_eq!(r, Ok(()));
    assert_eq!(client.state, ClientState::Closed);
}

#[test]
fn client_transmit_surfaces_exhausted_retries() {
    let mut client = Client::new();
    let mut incoming = PacketStream::new();
    let mut outgoing = PacketStream::new();
    let r = client.transmit(&mut incoming, &mut outgoing, b"data".to_vec());
    assert_eq!(r, Err(TransferError::RetriesExhausted));
    assert_eq!(client.state, ClientState::Error);
}
