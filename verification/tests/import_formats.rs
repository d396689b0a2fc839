use scdesk::activity::{
    activity_times_in_range, encode_fill_record, parse_activity_bytes, parse_tlv, push_field, str_val,
};
use scdesk::contracts::parse_symbol;
use scdesk::journal::JournalError;
use scdesk::scid::{unix_ms_to_ole_us, UNIX_EPOCH_SC_US};
use scdesk::tradeslist::{parse_tradeslist_rows, split_on, text_lines};

fn field(out: &mut Vec<u8>, code: u32, payload: &[u8]) {
    out.extend_from_slice(&code.to_le_bytes());
    out.extend_from_slice(&(payload.len() as u32).to_le_bytes());
    out.extend_from_slice(payload);
}

fn fill_record(out: &mut Vec<u8>, symbol: &str, side: u8, qty: f64, price: f64, ole: i64) {
    field(out, 100, &[]);
    field(out, 101, &2u32.to_le_bytes());
    field(out, 102, &ole.to_le_bytes());
    field(out, 103, format!("{symbol}\0\0").as_bytes());
    field(out, 108, &qty.to_le_bytes());
    field(out, 109, &[side]);
    field(out, 110, &price.to_le_bytes());
    field(out, 118, b"Sim1");
    field(out, 199, &[]);
}

#[test]
fn tradeslist_parse() {
    let text = "Symbol\tTrade Type\tEntry DateTime\tExit DateTime\tEntry Price\tExit Price\tTrade Quantity\tProfit/Loss (C)\tAccount\r\n\
NQU6.CME\tShort\t2026-08-03  09:31:05\t2026-08-03 09:40:00\t20,100.25\t20,090.00\t1\t$205.00\t\r\n\
\r\n\
\tLong\t2026-08-03 09:31:05\t\t1\t2\t1\t1\tx\r\n\
MESU6.CME\tLong\t2026-08-03 10:00:00\t\t5,600.00\t\t2\t-1,250.50\tSim1\n";
    let rows = parse_tradeslist_rows(text).unwrap();
    assert_eq!(rows.len(), 2);
    assert_eq!(parse_symbol(&rows[0].symbol).root, "NQ");
    assert_eq!(rows[0].direction, "SHORT");
    let r = &rows[0];
    assert_eq!(r.symbol, "NQU6.CME");
    assert_eq!(r.direction, "SHORT");
    assert_eq!(r.entry_price, "20100.25");
    assert_eq!(r.exit_price, "20090.00");
    assert_eq!(r.quantity, "1");
    assert_eq!(r.profit, "205.00");
    assert_eq!(r.account, "unknown");
    assert_eq!(r.open_datetime, "2026-08-03 09:31:05");
    assert_eq!(r.open_epoch_ms, 1_785_749_465_000);
    assert_eq!(r.close_epoch_ms, 1_785_750_000_000);
    assert_eq!(r.id, "NQU6_CME_1785749465000_SHORT_unknown");
    let m = &rows[1];
    assert_eq!(m.direction, "LONG");
    assert_eq!(m.exit_price, "");
    assert_eq!(m.close_datetime, "");
    assert_eq!(m.close_epoch_ms, 0);
    assert_eq!(m.profit, "-1250.50");
    assert_eq!(m.account, "Sim1");
}

#[test]
fn tradeslist_needs_a_header() {
    match parse_tradeslist_rows("Symbol\tType\tEntry\n") {
        Err(JournalError::Parse(m)) => assert_eq!(m, "TradesList header missing"),
        _ => panic!("expected an error"),
    }
    assert!(parse_tradeslist_rows("").is_err());
    // Columns found by name, in any order.
    let rows = parse_tradeslist_rows("account\tqty\tsymbol\ttype\n A \t3\tESZ5\tSHORT\n").unwrap();
    assert_eq!(rows[0].symbol, "ESZ5");
    assert_eq!(rows[0].account, "A");
    assert_eq!(rows[0].quantity, "3");
    assert_eq!(rows[0].direction, "SHORT");
}

#[test]
fn lines_and_cells_split_like_std() {
    let lines: Vec<String> = text_lines("a\r\nb\n\nc\r").iter().map(|l| l.iter().collect()).collect();
    assert_eq!(lines, vec!["a", "b", "", "c\r"]);
    assert!(text_lines("").is_empty());
    assert_eq!(text_lines("x\n").len(), 1);
    let cells: Vec<String> = split_on(&"a\t\tb".chars().collect(), '\t').iter().map(|c| c.iter().collect()).collect();
    assert_eq!(cells, vec!["a", "", "b"]);
}

#[test]
fn activity_log_fills() {
    let t = 1_700_000_000_000i64;
    let mut bytes = Vec::new();
    field(&mut bytes, 1, &1u32.to_le_bytes());
    fill_record(&mut bytes, "MNQU6.CME", 1, 2.0, 18_000.25, unix_ms_to_ole_us(t));
    // A non-fill record is skipped.
    field(&mut bytes, 100, &[]);
    field(&mut bytes, 101, &1u32.to_le_bytes());
    field(&mut bytes, 103, b"ESU6");
    field(&mut bytes, 199, &[]);
    fill_record(&mut bytes, "ESU6", 2, 1.0, 5_000.0, unix_ms_to_ole_us(t + 1_000));
    assert!(activity_times_in_range(&bytes));
    let fills = parse_activity_bytes(&bytes).unwrap();
    assert_eq!(fills.len(), 2);
    assert_eq!(fills[0].symbol, "MNQU6.CME");
    assert_eq!(fills[0].account, "Sim1");
    assert_eq!(fills[0].side, 1);
    assert_eq!(fills[0].qty_bits.map(f64::from_bits), Some(2.0));
    assert_eq!(f64::from_bits(fills[0].price_bits), 18_000.25);
    assert_eq!(fills[0].ts, "2023-11-14 22:13:20");
    assert_eq!(fills[1].symbol, "ESU6");
    assert_eq!(fills[1].side, 2);
    assert_eq!(fills[1].ts, "2023-11-14 22:13:21");
}

#[test]
fn activity_overrun_is_an_error() {
    let mut bytes = Vec::new();
    bytes.extend_from_slice(&103u32.to_le_bytes());
    bytes.extend_from_slice(&50u32.to_le_bytes());
    bytes.extend_from_slice(b"short");
    match parse_tlv(&bytes) {
        Err(JournalError::Parse(m)) => assert_eq!(m, "activity field 103 length 50 overruns file"),
        _ => panic!("expected an overrun"),
    }
    assert!(parse_activity_bytes(&bytes).is_err());
    // A trailing piece shorter than a field header is ignored.
    let fields = parse_tlv(&[1, 0, 0, 0, 0, 0, 0, 0, 9, 9]).unwrap();
    assert_eq!(fields, vec![(1u32, Vec::new())]);
}

#[test]
fn text_payloads_drop_trailing_nuls() {
    assert_eq!(str_val(b"NQU6\0\0"), "NQU6");
    assert_eq!(str_val(b"a\0b\0"), "a\0b");
    assert_eq!(str_val(&[0x66, 0xff]), "f\u{fffd}");
    assert!(UNIX_EPOCH_SC_US > 0);
}

#[test]
fn written_fields_read_back() {
    let mut bytes = Vec::new();
    push_field(&mut bytes, 7, b"abc");
    push_field(&mut bytes, 0xdead_beef, &[]);
    push_field(&mut bytes, 199, &[0, 255]);
    assert_eq!(&bytes[0..8], &[7, 0, 0, 0, 3, 0, 0, 0]);
    let fields = parse_tlv(&bytes).unwrap();
    assert_eq!(
        fields,
        vec![(7u32, b"abc".to_vec()), (0xdead_beef, Vec::new()), (199, vec![0, 255])]
    );
}

#[test]
fn encoded_fill_reads_back() {
    let t = 1_700_000_000_000i64;
    let bytes = encode_fill_record(
        unix_ms_to_ole_us(t),
        "MESZ6.CME".as_bytes(),
        "Apex-12".as_bytes(),
        2,
        3.0f64.to_bits(),
        6_012.5f64.to_bits(),
        (-3.0f64).to_bits(),
    );
    assert!(activity_times_in_range(&bytes));
    let fills = parse_activity_bytes(&bytes).unwrap();
    assert_eq!(fills.len(), 1);
    assert_eq!(fills[0].symbol, "MESZ6.CME");
    assert_eq!(fills[0].account, "Apex-12");
    assert_eq!(fills[0].side, 2);
    assert_eq!(fills[0].qty_bits, Some(3.0f64.to_bits()));
    assert_eq!(fills[0].price_bits, 6_012.5f64.to_bits());
    assert_eq!(fills[0].pos_qty_bits, Some((-3.0f64).to_bits()));
    assert_eq!(fills[0].ts, "2023-11-14 22:13:20");
    // The version field leads, then the record opens at field 100.
    assert_eq!(&bytes[0..4], &1u32.to_le_bytes());
    assert_eq!(&bytes[16..20], &100u32.to_le_bytes());
}
