use squirrel::intent_bus::bus::IntentBus;
use squirrel::intent_bus::intent::Intent;
use squirrel::network::agent::{answer, begin, NetworkAgent, NetworkRequest, NetworkResponse, PostResult};
use squirrel::network::e1000::{
    eeprom_command, eeprom_word, mac_from_eeprom, mac_from_registers, mac_registers, E1000, DESC_DD, NUM_TX_DESC,
};
use squirrel::network::http::{
    decode_chunked, parse_http_response, parse_url, HttpClient, HttpResponse, LoopStep, PeerState, SendOutcome,
    TcpReadToEnd, TcpSendAll,
};
use squirrel::network::https::{read_wait, write_wait, PostAction, PostError, ReadWait, TlsPost, WriteWait};
use squirrel::network::pci::{
    classify, enable_bus_mastering, find_nic, pci_address, pci_read_u16, pci_write_u16, NicKind, PciDevice, SlotConfig,
};
use squirrel::network::registers::{high_bits, low_bits, virt_to_phys, RegWrite};
use squirrel::network::rng::{attempted, fill_bytes, word_bytes, words_for, Attempt};
use squirrel::network::rtl8139::{Rtl8139, CMD_BUFE, RX_BUF_SIZE};
use squirrel::network::startup::{is_ready, report_device, report_mac, NetworkState};
use squirrel::network::tls::{
    find_header_end, pool_body_complete, pool_has_final_chunk, pool_header_has, pool_parse_content_length, PoolAction,
    PoolCache, PoolError,
    PoolExchange,
};
use squirrel::network::virtio_net::{
    accepted_features, handshake_program, live_write, queue_layout, rx_frame_len, setup_program, tx_bytes, UsedElem,
    Virtqueue,
};
use squirrel::sart::agent::AgentContext;

fn pci(bar0: u32) -> PciDevice {
    PciDevice { bus: 0, slot: 3, func: 0, vendor_id: 0x10EC, device_id: 0x8139, bar0 }
}

// --- addresses ---------------------------------------------------------------

#[test]
fn urls_are_split() {
    let u = parse_url("https://api.example.com/v1/chat?q=1").unwrap();
    assert_eq!((u.hostname.as_str(), u.port, u.path.as_str(), u.is_https), ("api.example.com", 443, "/v1/chat?q=1", true));
    let u = parse_url("http://localhost:11434").unwrap();
    assert_eq!((u.hostname.as_str(), u.port, u.path.as_str(), u.is_https), ("localhost", 11434, "/", false));
    assert_eq!(parse_url("ftp://x").err(), Some("URL must start with http:// or https://"));
    assert_eq!(parse_url("http://x:99999/").err(), Some("Invalid port in URL"));
    assert_eq!(parse_url("http://x:/").err(), Some("Invalid port in URL"));
}

#[test]
fn post_request_has_its_head() {
    let headers = [(String::from("X-Key"), String::from("v"))];
    let plan = HttpClient::new().post_json("http://h/p", &headers, b"{}").unwrap();
    assert_eq!(
        String::from_utf8(plan.request).unwrap(),
        "POST /p HTTP/1.1\r\nHost: h\r\nContent-Type: application/json\r\nContent-Length: 2\r\nX-Key: v\r\n\
         Connection: close\r\n\r\n{}"
    );
    let plan = HttpClient::new().post_json("https://h/p", &[], b"").unwrap();
    assert!(String::from_utf8(plan.request).unwrap().contains("Connection: keep-alive\r\n\r\n"));
    assert!(HttpClient::new().post_json("h", &[], b"").is_err());
}

// --- responses ---------------------------------------------------------------

#[test]
fn responses_are_parsed() {
    let r = parse_http_response(b"HTTP/1.1 200 OK\r\nContent-Length: 2\r\n\r\nhi").unwrap();
    assert_eq!((r.status_code, r.body), (200, b"hi".to_vec()));
    let r = parse_http_response(b"HTTP/1.1 200 OK\r\nTRANSFER-encoding: Chunked\r\n\r\n3\r\nabc\r\n0\r\n\r\n").unwrap();
    assert_eq!(r.body, b"abc".to_vec());
    assert_eq!(parse_http_response(b"HTTP/1.1 200").err(), Some("Malformed HTTP response: no header/body boundary"));
    assert_eq!(parse_http_response(b"\r\n\r\n").err(), Some("Empty HTTP response"));
    assert_eq!(parse_http_response(b"HTTP/1.1 abc\r\n\r\n").err(), Some("Invalid HTTP status code"));
    assert_eq!(parse_http_response(b"HTTP/1.1 200\r\n\r\n\xff").err(), Some("Response is not valid UTF-8"));
}

#[test]
fn chunks_are_joined() {
    assert_eq!(decode_chunked(b"4\r\nwiki\r\n5;ext=1\r\npedia\r\n0\r\n\r\n"), b"wikipedia".to_vec());
    assert_eq!(decode_chunked(b"A\r\n0123456789\r\n0\r\n\r\n"), b"0123456789".to_vec());
    assert_eq!(decode_chunked(b"9\r\nabc"), b"abc".to_vec());
    assert_eq!(decode_chunked(b"zz\r\nabc"), Vec::<u8>::new());
    assert_eq!(decode_chunked(b""), Vec::<u8>::new());
}

// --- plain sockets -----------------------------------------------------------

#[test]
fn sending_goes_on_until_all_is_sent() {
    let mut s = TcpSendAll::new(10, 100);
    assert!(s.step(SendOutcome::Busy, 100) == LoopStep::Again);
    assert!(s.step(SendOutcome::Sent(4), 200) == LoopStep::Again);
    assert_eq!(s.sent, 4);
    assert!(s.step(SendOutcome::Sent(6), 300) == LoopStep::Done);
    let mut s = TcpSendAll::new(10, 100);
    assert!(s.step(SendOutcome::Busy, 10_101) == LoopStep::TimedOut);
    let mut s = TcpSendAll::new(10, 100);
    assert!(s.step(SendOutcome::Failed, 101) == LoopStep::Failed);
}

#[test]
fn reading_ends_with_the_connection() {
    let mut r = TcpReadToEnd::new(0);
    assert!(r.step(b"", PeerState::HalfClosed, 1) == LoopStep::Again);
    assert!(r.step(b"ab", PeerState::Sending, 2) == LoopStep::Again);
    assert!(r.step(b"c", PeerState::HalfClosed, 3) == LoopStep::Done);
    assert_eq!(r.result, b"abc".to_vec());
    let mut r = TcpReadToEnd::new(0);
    assert!(r.step(b"", PeerState::Sending, 30_001) == LoopStep::TimedOut);
    let mut r = TcpReadToEnd::new(0);
    assert!(r.step(b"x", PeerState::Sending, 30_001) == LoopStep::Done);
    let mut r = TcpReadToEnd::new(0);
    assert!(r.step(b"", PeerState::Closed, 0) == LoopStep::Done);
}

// --- secure connections ------------------------------------------------------

#[test]
fn head_of_a_response_is_read() {
    assert_eq!(find_header_end(b"ab\r\n\r\nc"), Some(2));
    assert_eq!(find_header_end(b"ab\r\n\r"), None);
    assert_eq!(pool_parse_content_length("HTTP/1.1 200 OK\r\nCONTENT-length:  17 "), Some(17));
    assert_eq!(pool_parse_content_length("Content-Length: x"), None);
    assert_eq!(pool_parse_content_length("Other: 1"), None);
    assert!(pool_header_has("A: b\r\nTransfer-Encoding: CHUNKED", "transfer-encoding", "chunked"));
    assert!(!pool_header_has("Transfer-Encoding: gzip", "transfer-encoding", "chunked"));
    assert!(pool_has_final_chunk(b"3\r\nabc\r\n0\r\n\r\n"));
    assert!(!pool_has_final_chunk(b"0\r\n"));
}

#[test]
fn kept_connection_is_read_by_length() {
    let (mut x, first) = PoolExchange::start(6);
    assert!(first == PoolAction::Write(0));
    assert!(x.wrote(Some(4)) == PoolAction::Write(4));
    assert!(x.wrote(Some(2)) == PoolAction::Flush);
    assert!(x.flushed(true, 0) == PoolAction::Read);
    assert!(x.read(Some(b"HTTP/1.1 200 OK\r\nContent-"), 1) == PoolAction::Read);
    assert!(x.read(Some(b"Length: 5\r\n\r\nhel"), 2) == PoolAction::Read);
    assert!(x.read(Some(b"lo"), 3) == PoolAction::Finish);
    assert!(x.data().ends_with(b"\r\n\r\nhello"));
}

#[test]
fn kept_connection_is_read_by_chunks_or_silence() {
    let (mut x, first) = PoolExchange::start(0);
    assert!(first == PoolAction::Flush);
    assert!(x.flushed(true, 0) == PoolAction::Read);
    assert!(x.read(Some(b"H\r\nTransfer-Encoding: chunked\r\n\r\n1\r\na\r\n"), 1) == PoolAction::Read);
    assert!(x.read(Some(b"0\r\n\r\n"), 2) == PoolAction::Finish);

    let (mut x, _) = PoolExchange::start(0);
    x.flushed(true, 0);
    assert!(x.read(Some(b"H\r\n\r\nabc"), 10) == PoolAction::Read);
    assert!(x.read(Some(b"d"), 3010) == PoolAction::Read);
    assert!(x.read(Some(b"e"), 3011) == PoolAction::Finish);
}

#[test]
fn kept_connection_can_break() {
    let (mut x, _) = PoolExchange::start(3);
    assert!(x.wrote(None) == PoolAction::Fail(PoolError::WriteFailed));
    let (mut x, _) = PoolExchange::start(3);
    assert!(x.wrote(Some(0)) == PoolAction::Fail(PoolError::ClosedDuringWrite));
    let (mut x, _) = PoolExchange::start(0);
    assert!(x.flushed(false, 0) == PoolAction::Fail(PoolError::FlushFailed));
    let (mut x, _) = PoolExchange::start(0);
    x.flushed(true, 0);
    assert!(x.read(None, 0) == PoolAction::Fail(PoolError::ReadFailed));
    let (mut x, _) = PoolExchange::start(0);
    x.flushed(true, 0);
    assert!(x.read(Some(b""), 0) == PoolAction::Fail(PoolError::ClosedBeforeHeaders));
    let (mut x, _) = PoolExchange::start(0);
    x.flushed(true, 0);
    assert!(x.read(Some(b"HTTP"), 30_001) == PoolAction::Fail(PoolError::HeaderTimeout));
    assert_eq!(PoolError::HeaderTimeout.message(), "timeout reading headers");
    assert_eq!(PoolError::WriteFailed.message(), "TLS write failed");
    assert_eq!(PoolError::ClosedDuringWrite.message(), "TLS: closed during write");
    assert_eq!(PoolError::FlushFailed.message(), "TLS flush failed");
    assert_eq!(PoolError::ClosedBeforeHeaders.message(), "connection closed before headers");
    assert_eq!(PoolError::ReadFailed.message(), "TLS read error");
}

#[test]
fn kept_connection_is_found_by_host() {
    let mut cache = PoolCache::new();
    assert_eq!(cache.check("a.com"), Err("no cached connection"));
    cache.keep("a.com");
    assert_eq!(cache.check("a.com"), Ok(()));
    assert_eq!(cache.check("b.com"), Err("hostname mismatch"));
    cache.forget();
    assert_eq!(cache.check("a.com"), Err("no cached connection"));
    let long = "a".repeat(200);
    cache.keep(&long);
    assert_eq!(cache.check(&long), Ok(()));
    assert_eq!(cache.check(&long[..128]), Err("hostname mismatch"));
    cache.keep("");
    assert_eq!(cache.check(""), Err("no cached connection"));
}

#[test]
fn single_request_goes_through_its_phases() {
    let (mut p, first) = TlsPost::start(5);
    assert!(first == PostAction::Open);
    assert!(p.opened(true) == PostAction::Write(0));
    assert!(p.wrote(Some(5)) == PostAction::Flush);
    assert!(p.flushed(true, 7) == PostAction::Read);
    assert!(p.read(Some(b"ab"), 8) == PostAction::Read);
    assert!(p.read(Some(b"c"), 9) == PostAction::Read);
    assert!(p.read(Some(b""), 10) == PostAction::Finish);
    assert_eq!(p.data(), &b"abc".to_vec());
}

#[test]
fn single_request_can_fail() {
    let (mut p, _) = TlsPost::start(5);
    assert!(p.opened(false) == PostAction::Fail(PostError::HandshakeFailed));
    let (mut p, _) = TlsPost::start(5);
    p.opened(true);
    assert!(p.wrote(None) == PostAction::Fail(PostError::WriteFailed));
    let (mut p, _) = TlsPost::start(5);
    p.opened(true);
    assert!(p.wrote(Some(0)) == PostAction::Fail(PostError::ClosedDuringWrite));
    let (mut p, _) = TlsPost::start(0);
    assert!(p.opened(true) == PostAction::Flush);
    assert!(p.flushed(false, 0) == PostAction::Fail(PostError::FlushFailed));
    let (mut p, _) = TlsPost::start(0);
    p.opened(true);
    p.flushed(true, 0);
    assert!(p.read(None, 0) == PostAction::Fail(PostError::ReadFailed));
    let (mut p, _) = TlsPost::start(0);
    p.opened(true);
    p.flushed(true, 0);
    assert!(p.read(Some(b"x"), 30_001) == PostAction::Finish);
    assert_eq!(PostError::HandshakeFailed.message(), "TLS handshake failed");
    assert_eq!(PostError::ClosedDuringWrite.message(), "TLS: connection closed during write");
    assert_eq!(PostError::WriteFailed.message(), "TLS write failed");
    assert_eq!(PostError::FlushFailed.message(), "TLS flush failed");
    assert_eq!(PostError::ReadFailed.message(), "TLS read failed");
}

#[test]
fn sockets_are_waited_for() {
    assert!(read_wait(true, false, 9, 5) == ReadWait::Receive);
    assert!(read_wait(false, false, 9, 5) == ReadWait::EndOfFile);
    assert!(read_wait(false, true, 9, 5) == ReadWait::TimedOut);
    assert!(read_wait(false, true, 5, 5) == ReadWait::Wait);
    assert!(write_wait(true, 9, 5) == WriteWait::Send);
    assert!(write_wait(false, 9, 5) == WriteWait::TimedOut);
    assert!(write_wait(false, 5, 5) == WriteWait::Wait);
}

// --- random bytes ------------------------------------------------------------

#[test]
fn random_words_fill_buffers() {
    let w = 0x0807_0605_0403_0201u64;
    assert_eq!(word_bytes(w, 3), vec![1, 2, 3]);
    assert_eq!(word_bytes(w, 20), vec![1, 2, 3, 4, 5, 6, 7, 8]);
    assert_eq!((words_for(0), words_for(8), words_for(9)), (0, 1, 2));
    assert_eq!(fill_bytes(&[w, 0xff], 10), vec![1, 2, 3, 4, 5, 6, 7, 8, 0xff, 0]);
    assert!(attempted(0, true, 5) == Attempt::Word(5));
    assert!(attempted(8, false, 5) == Attempt::Again);
    assert!(attempted(9, false, 5) == Attempt::Broken);
}

// --- bus and cards -----------------------------------------------------------

#[test]
fn configuration_registers_are_addressed() {
    assert_eq!(pci_address(0, 3, 0, 0x12), 0x8000_1810);
    assert_eq!(pci_read_u16(0xAAAA_BBBB, 0), 0xBBBB);
    assert_eq!(pci_read_u16(0xAAAA_BBBB, 2), 0xAAAA);
    assert_eq!(pci_write_u16(0xAAAA_BBBB, 2, 0x1234), 0x1234_BBBB);
    assert_eq!(pci_write_u16(0xAAAA_BBBB, 4, 0x1234), 0xAAAA_1234);
    assert_eq!(enable_bus_mastering(0x03), 0x07);
}

#[test]
fn first_supported_card_is_found() {
    let empty = SlotConfig { vendor_id: 0xFFFF, device_id: 0, bar0: 0 };
    let other = SlotConfig { vendor_id: 0x1234, device_id: 0x1000, bar0: 5 };
    let intel = SlotConfig { vendor_id: 0x8086, device_id: 0x100E, bar0: 0xFEB0_0000 };
    let (dev, kind) = find_nic(&[empty, other, intel]).unwrap();
    assert!(kind == NicKind::IntelE1000);
    assert_eq!((dev.slot, dev.bar0), (2, 0xFEB0_0000));
    assert!(find_nic(&[empty, other]).is_none());
    assert!(classify(0x1AF4, 0x1041) == Some(NicKind::VirtioNet));
    assert!(classify(0x10EC, 0x8139) == Some(NicKind::RealtekRtl8139));
    assert!(classify(0x10EC, 0x8168).is_none());
}

#[test]
fn addresses_are_halved_and_converted() {
    assert_eq!(low_bits(0x1122_3344_5566_7788), 0x5566_7788);
    assert_eq!(high_bits(0x1122_3344_5566_7788), 0x1122_3344);
    assert_eq!(virt_to_phys(0x5000, 0x1000), 0x4000);
}

#[test]
fn realtek_ring_gives_frames() {
    let mut nic = Rtl8139::new(&pci(0xC001), 0);
    assert_eq!(nic.io_base, 0xC000);
    assert_eq!(nic.rx_buffer.len(), RX_BUF_SIZE);
    assert!(nic.recv_frame(CMD_BUFE, 100).is_none());
    assert!(nic.recv_frame(0, 100).is_none());
    // A good packet of three bytes and its checksum.
    nic.rx_buffer[0] = 1;
    nic.rx_buffer[2] = 7;
    nic.rx_buffer[4..7].copy_from_slice(&[9, 8, 7]);
    let (frame, capr) = nic.recv_frame(0, 100).unwrap();
    assert_eq!(frame, vec![9, 8, 7]);
    assert_eq!(nic.rx_offset, 12);
    assert_eq!(capr, 12u16.wrapping_sub(16));
}

#[test]
fn realtek_sends_round_robin() {
    let mut nic = Rtl8139::new(&pci(0xC001), 0);
    let a = nic.send_frame(&[1, 2, 3]);
    assert_eq!((a.index, a.len, a.addr_reg, a.status_reg), (0, 3, 0x20, 0x10));
    assert_eq!(nic.tx_buffers[0][..3], [1, 2, 3]);
    let b = nic.send_frame(&[0; 2000]);
    assert_eq!((b.index, b.len, b.addr_reg, b.status_reg), (1, 1536, 0x24, 0x14));
    nic.send_frame(&[]);
    nic.send_frame(&[]);
    assert_eq!(nic.send_frame(&[]).index, 0);
    assert!(Rtl8139::reset_done(0x00));
    assert!(!Rtl8139::reset_done(0x10));
    assert_eq!(nic.mac_address(), [0; 6]);
}

#[test]
fn intel_ring_sends_and_receives() {
    let mut nic = E1000::new(&pci(0xFEB0_0001), 0x1000);
    assert_eq!(nic.mmio_base, 0xFEB0_1000);
    assert!(nic.recv_frame(100).is_none());
    nic.rx_descs[0].status = DESC_DD;
    nic.rx_descs[0].length = 2;
    nic.rx_buffers[0][..2].copy_from_slice(&[5, 6]);
    let (frame, tail) = nic.recv_frame(100).unwrap();
    assert_eq!((frame, tail), (vec![5, 6], 0));
    assert_eq!(nic.rx_cur, 1);
    for i in 0..NUM_TX_DESC {
        assert_eq!(nic.send_frame(&[i as u8]), Some(((i + 1) % NUM_TX_DESC) as u32));
    }
    assert_eq!(nic.send_frame(&[1]), None);
    assert_eq!(nic.tx_descs[3].length, 1);
    assert_eq!(nic.tx_buffers[3][0], 3);
}

#[test]
fn intel_address_comes_from_registers_or_memory() {
    let mac = [0x52, 0x54, 0x00, 0x12, 0x34, 0x56];
    let (ral, rah) = mac_registers(&mac);
    assert_eq!(ral, 0x1200_5452);
    assert_eq!(rah & 0xFFFF, 0x5634);
    assert_eq!(mac_from_registers(ral, rah), Some(mac));
    assert_eq!(mac_from_registers(0, 0x8000_0000), None);
    assert_eq!(mac_from_eeprom(0x5452, 0x1200, 0x5634), mac);
    assert_eq!(eeprom_command(2), 0x201);
    assert_eq!(eeprom_word(0xABCD_0010), Some(0xABCD));
    assert_eq!(eeprom_word(0xABCD_0000), None);
}

#[test]
fn queue_hands_descriptors_out_and_takes_them_back() {
    let layout = queue_layout(256);
    assert_eq!((layout.avail_offset, layout.used_offset), (4096, 8192));
    let mut q = Virtqueue::new(4, 0x5000);
    assert_eq!(q.page_number(), 5);
    assert_eq!(q.alloc_desc(), Some(0));
    assert_eq!(q.alloc_desc(), Some(1));
    assert_eq!(q.num_free, 2);
    q.free_desc(0);
    assert_eq!((q.num_free, q.free_head), (3, 0));
    assert_eq!(q.alloc_desc(), Some(0));
    assert_eq!(q.submit(0x9000, 60, 2), Some(2));
    assert_eq!(q.avail_ring[0], 2);
    assert_eq!(q.avail_idx, 1);
    assert_eq!((q.descs[2].addr, q.descs[2].len, q.descs[2].flags), (0x9000, 60, 2));
    assert_eq!(q.alloc_desc(), Some(3));
    assert_eq!(q.submit(0, 0, 0), None);
    q.resubmit_rx(2, 0x7000);
    assert_eq!((q.descs[2].addr, q.descs[2].len), (0x7000, 1524));
}

#[test]
fn used_entries_are_taken_once() {
    let mut q = Virtqueue::new(2, 0);
    let used = [UsedElem { id: 1, len: 64 }, UsedElem { id: 0, len: 70 }];
    assert_eq!(q.pop_used(0, &used), None);
    assert_eq!(q.pop_used(2, &used), Some((1, 64)));
    assert_eq!(q.pop_used(2, &used), Some((0, 70)));
    assert_eq!(q.pop_used(2, &used), None);
    let mut q = Virtqueue::new(2, 0);
    q.alloc_desc();
    q.alloc_desc();
    assert_eq!(q.num_free, 0);
    q.reclaim(2, &[UsedElem { id: 1, len: 0 }, UsedElem { id: 0, len: 0 }]);
    assert_eq!((q.num_free, q.last_used_idx, q.free_head), (2, 2, 0));
    assert_eq!((q.alloc_desc(), q.alloc_desc(), q.alloc_desc()), (Some(0), Some(1), None));
}

#[test]
fn reclaiming_frees_what_the_device_names() {
    // A descriptor that is named twice is counted and handed out twice.
    let mut q = Virtqueue::new(2, 0);
    q.alloc_desc();
    q.alloc_desc();
    q.reclaim(2, &[UsedElem { id: 0x1_0001, len: 0 }, UsedElem { id: 1, len: 0 }]);
    assert_eq!((q.num_free, q.last_used_idx, q.free_head), (2, 2, 1));
    assert_eq!((q.descs[1].flags, q.descs[1].next), (0, 1));
    assert_eq!((q.alloc_desc(), q.alloc_desc(), q.alloc_desc()), (Some(1), Some(1), None));
    // One that is free already is counted again.
    let mut q = Virtqueue::new(3, 0);
    q.reclaim(1, &[UsedElem { id: 2, len: 0 }, UsedElem { id: 0, len: 0 }, UsedElem { id: 0, len: 0 }]);
    assert_eq!((q.num_free, q.free_head, q.descs[2].next), (4, 2, 0));
}

#[test]
fn virtio_frames_have_a_header() {
    assert_eq!(tx_bytes(&[1, 2]), vec![0, 0, 0, 0, 0, 0, 0, 0, 0, 0, 1, 2]);
    assert_eq!(rx_frame_len(74, 100), Some(64));
    assert_eq!(rx_frame_len(74, 10), None);
    assert_eq!(accepted_features(0xFFFF_FFFF), 0x20);
    assert_eq!(handshake_program().len(), 3);
    assert!(setup_program(0x21, 7, 8)[2] == RegWrite::Long(0x08, 7));
    assert!(live_write() == RegWrite::Byte(0x12, 7));
}

#[test]
fn startup_is_reported() {
    let mut state = NetworkState::new();
    assert!(!is_ready(&state));
    assert_eq!(report_device(None), Err("No virtio-net device found"));
    assert_eq!(
        report_device(Some((0xC0A, 3))).unwrap(),
        format!("[Network] virtio-net found at PCI 0:{}.0, I/O base 0x{:04X}", 3, 0xC0A)
    );
    assert_eq!(report_mac(&[0x52, 0x54, 0, 0x12, 0xAB, 0x0F]), "[Network] MAC: 52:54:00:12:AB:0F");
    assert_eq!(state.finish(Err("DHCP timeout")), Err("DHCP timeout"));
    assert!(!is_ready(&state));
    assert_eq!(
        state.finish(Ok(("10.0.2.15", "Some(10.0.2.2)", "None"))).unwrap(),
        "[Network] DHCP complete: IP=10.0.2.15, GW=Some(10.0.2.2), DNS=None"
    );
    assert!(is_ready(&state));
}

// --- agent -------------------------------------------------------------------

#[test]
fn network_agent_answers_requests() {
    let mut bus = IntentBus::new();
    let conn = bus.connect("network-agent", &["network.http.post"]);
    let asker = bus.connect("asker", &["network.http.post.response"]);
    let ctx = AgentContext { bus: &conn, tick: 0 };
    assert!(begin(&ctx, &mut bus).is_none());
    bus.send(Intent::with_bytes("network.http.post", "x", vec![200]));
    assert!(begin(&ctx, &mut bus).is_none());
    let request = NetworkRequest { url: String::from("http://h/"), headers: vec![], body: vec![1] };
    asker.send(&mut bus, Intent::request("network.http.post", "asker", &request));
    let (intent, got) = begin(&ctx, &mut bus).unwrap();
    assert_eq!((got.url.as_str(), got.body.clone()), ("http://h/", vec![1]));
    answer(&ctx, &mut bus, &intent, PostResult::Answered(HttpResponse { status_code: 201, body: vec![2] }));
    let reply = asker.try_recv(&mut bus).unwrap();
    assert_eq!(reply.reply_to, Some(intent.id));
    let r = reply.decode::<NetworkResponse>().unwrap();
    assert_eq!((r.status_code, r.body, r.error), (201, vec![2], None));
    answer(&ctx, &mut bus, &intent, PostResult::NoNetwork);
    let r = asker.try_recv(&mut bus).unwrap().decode::<NetworkResponse>().unwrap();
    assert_eq!((r.status_code, r.error), (0, Some(String::from("Network stack not initialized"))));
    answer(&ctx, &mut bus, &intent, PostResult::Failed(String::from("no route")));
    let r = asker.try_recv(&mut bus).unwrap().decode::<NetworkResponse>().unwrap();
    assert_eq!(r.error, Some(String::from("no route")));
    let mut agent = NetworkAgent::new();
    agent.start();
    assert!(agent.started);
}

#[test]
fn chunks_may_split_a_character() {
    let raw = b"HTTP/1.1 200 OK\r\nTransfer-Encoding: chunked\r\n\r\n1\r\n\xC3\r\n1\r\n\xA9\r\n0\r\n\r\n";
    let r = parse_http_response(raw).unwrap();
    assert_eq!((r.status_code, r.body), (200, vec![0xC3, 0xA9]));
    // The joined body has to be text, and so has the head.
    let cut = b"HTTP/1.1 200 OK\r\nTransfer-Encoding: chunked\r\n\r\n1\r\n\xC3\r\n0\r\n\r\n";
    assert_eq!(parse_http_response(cut).err(), Some("Response is not valid UTF-8"));
    assert_eq!(parse_http_response(b"HTTP/1.1 \xff\r\n\r\nok").err(), Some("Response is not valid UTF-8"));
    assert_eq!(parse_http_response(b"\xff").err(), Some("Response is not valid UTF-8"));
    // What is no text is told before what has no status.
    assert_eq!(parse_http_response(b"HTTP/1.1 abc\r\n\r\n\xff").err(), Some("Response is not valid UTF-8"));
}

#[test]
fn chunk_sizes_are_hexadecimal() {
    let data: Vec<u8> = (0..26).map(|i| b'a' + i).collect();
    let mut body = b"1A;name=value\r\n".to_vec();
    body.extend_from_slice(&data);
    body.extend_from_slice(b"\r\n00a\r\n5\r\nhello\r\n\r\n0\r\n\r\n");
    let mut expected = data.clone();
    expected.extend_from_slice(b"5\r\nhello\r\n");
    assert_eq!(decode_chunked(&body), expected);
}

#[test]
fn new_queue_is_zeroed() {
    let q = Virtqueue::new(3, 0x8000);
    for (i, d) in q.descs.iter().enumerate() {
        assert_eq!((d.addr, d.len, d.flags), (0, 0, 0));
        assert_eq!(d.next as usize, if i < 2 { i + 1 } else { 0 });
    }
    assert_eq!(q.avail_ring, vec![0, 0, 0]);
    assert_eq!((q.free_head, q.num_free, q.avail_idx, q.phys_base), (0, 3, 0, 0x8000));
}

#[test]
fn reclaiming_keeps_the_buffers() {
    let mut q = Virtqueue::new(3, 0x8000);
    assert_eq!(q.submit(0x1000, 10, 2), Some(0));
    assert_eq!(q.submit(0x2000, 20, 2), Some(1));
    let ring = [UsedElem { id: 1, len: 5 }, UsedElem { id: 7, len: 5 }, UsedElem { id: 0, len: 0 }];
    q.reclaim(1, &ring);
    assert_eq!((q.descs[0].addr, q.descs[0].len, q.descs[0].flags, q.descs[0].next), (0x1000, 10, 2, 0));
    assert_eq!((q.descs[1].addr, q.descs[1].len, q.descs[1].flags, q.descs[1].next), (0x2000, 20, 0, 2));
    assert_eq!((q.free_head, q.num_free, q.phys_base), (1, 2, 0x8000));
    q.resubmit_rx(0, 0x3000);
    assert_eq!((q.phys_base, q.num_free, q.descs[0].addr), (0x8000, 2, 0x3000));
}

#[test]
fn chunked_body_is_complete_with_its_last_chunk() {
    // The data hold the bytes of a last chunk.
    let body = b"7\r\na0\r\n\r\nb\r\n5;x=y\r\nhello\r\n0\r\n\r\n";
    assert!(pool_has_final_chunk(&body[..10]));
    for k in 0..body.len() {
        assert!(!pool_body_complete(&body[..k]));
    }
    assert!(pool_body_complete(body));
    assert!(pool_body_complete(b"0\r\nTrailer: t\r\n\r\n"));
    assert!(!pool_body_complete(b"0\r\nTrailer: t\r\n"));
    assert!(pool_body_complete(b"no size\r\n0\r\n\r\n"));
    assert!(!pool_body_complete(b"no size\r\n"));
}
