use zpl_gen_for_library::decimal::parse_u32;
use zpl_gen_for_library::generator::{barcode_bytes, generate_zpl};

#[test]
fn label_of_five_million() {
    let expected = "^XA\n^CI28\n^PW600\n^LL300\n\
                    ^RFW,H^FD404B4C00^FS\n\
                    ^FO40,40^A0N,60,60^FD05000000^FS\n\
                    ^FO40,120^BCN,100,Y,N,N^FD50000009^FS\n\
                    ^XZ";
    assert_eq!(generate_zpl(5000000), expected);
}

#[test]
fn label_of_zero() {
    let expected = "^XA\n^CI28\n^PW600\n^LL300\n\
                    ^RFW,H^FD00000000^FS\n\
                    ^FO40,40^A0N,60,60^FD00000000^FS\n\
                    ^FO40,120^BCN,100,Y,N,N^FD00^FS\n\
                    ^XZ";
    assert_eq!(generate_zpl(0), expected);
}

#[test]
fn label_of_the_greatest_number() {
    let text = generate_zpl(u32::MAX);
    assert!(text.contains("^RFW,H^FDFFFFFFFF^FS\n"));
    assert!(text.contains("^A0N,60,60^FD4294967295^FS\n"));
    assert!(text.contains("^BCN,100,Y,N,N^FD42949672952^FS\n"));
    assert!(text.ends_with("^XZ"));
}

#[test]
fn label_has_no_line_end_after_it() {
    assert!(!generate_zpl(12).ends_with('\n'));
    assert!(generate_zpl(12).is_ascii());
}

#[test]
fn barcode_is_the_number_and_its_check_digit() {
    assert_eq!(barcode_bytes(5000000), b"50000009".to_vec());
    assert_eq!(barcode_bytes(5000001), b"50000017".to_vec());
    assert_eq!(barcode_bytes(0), b"00".to_vec());
    assert_eq!(barcode_bytes(u32::MAX), b"42949672952".to_vec());
}

#[test]
fn printed_number_reads_back_as_the_serial_number() {
    let opening = "^FO40,40^A0N,60,60^FD";
    for serial in [0u32, 7, 5000000, 5000019, 99999999, 100000000, u32::MAX] {
        let text = generate_zpl(serial);
        let from = text.find(opening).unwrap() + opening.len();
        let len = text[from..].find("^FS").unwrap();
        let field = &text[from..from + len];
        assert!(field.len() >= 8);
        assert_eq!(parse_u32(field.as_bytes()), Some(serial));
    }
}

#[test]
fn printed_number_stands_at_a_fixed_place() {
    let from = "^XA\n^CI28\n^PW600\n^LL300\n".len()
        + "^RFW,H^FD".len()
        + 8
        + "^FS\n".len()
        + "^FO40,40^A0N,60,60^FD".len();
    assert_eq!(&generate_zpl(42)[from..from + 8], "00000042");
    assert_eq!(&generate_zpl(4000000000)[from..from + 10], "4000000000");
}
