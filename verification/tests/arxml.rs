use can_log_decoder::decoder::Decoder;
use can_log_decoder::scalar::Scalar;
use can_log_decoder::signals::arxml::{
    parse_arxml_file, parse_document, ArxmlDocument, ArxmlElement, ArxmlParser, Conversion,
    SignalProperties,
};
use can_log_decoder::signals::autosar::load_document;
use can_log_decoder::signals::database::{ByteOrder, ContainerLayout, ValueType};
use can_log_decoder::types::{ContainerType, DecoderError};

fn el(depth: usize, tag: &str, name: Option<&str>, path: Option<&str>, text: Option<&str>) -> ArxmlElement {
    ArxmlElement {
        depth,
        tag: tag.to_string(),
        name: name.map(|s| s.to_string()),
        path: path.map(|s| s.to_string()),
        text: text.map(|s| s.to_string()),
    }
}

fn leaf(depth: usize, tag: &str, text: &str) -> ArxmlElement {
    el(depth, tag, None, None, Some(text))
}

fn node(depth: usize, tag: &str) -> ArxmlElement {
    el(depth, tag, None, None, None)
}

fn named(depth: usize, tag: &str, name: &str) -> ArxmlElement {
    let path = format!("/Pkg/{}", name);
    el(depth, tag, Some(name), Some(path.as_str()), None)
}

fn frame(name: &str, id: &str, pdu: &str) -> Vec<ArxmlElement> {
    let frame_path = format!("/Pkg/{}", name);
    let pdu_path = format!("/Pkg/{}", pdu);
    vec![
        node(1, "CAN-FRAME-TRIGGERING"),
        leaf(2, "FRAME-REF", &frame_path),
        leaf(2, "IDENTIFIER", id),
        named(1, "CAN-FRAME", name),
        node(2, "PDU-TO-FRAME-MAPPINGS"),
        node(3, "PDU-TO-FRAME-MAPPING"),
        leaf(4, "PDU-REF", &pdu_path),
    ]
}

fn mapping(depth: usize, signal: &str, start: &str, order: Option<&str>) -> Vec<ArxmlElement> {
    let mut m = vec![
        node(depth, "I-SIGNAL-TO-I-PDU-MAPPING"),
        leaf(depth + 1, "I-SIGNAL-REF", &format!("/Pkg/{}", signal)),
        leaf(depth + 1, "START-POSITION", start),
    ];
    if let Some(o) = order {
        m.push(leaf(depth + 1, "PACKING-BYTE-ORDER", o));
    }
    m
}

fn signal_pdu(name: &str, length: &str, mappings: Vec<Vec<ArxmlElement>>) -> Vec<ArxmlElement> {
    let mut p = vec![named(1, "I-SIGNAL-I-PDU", name), leaf(2, "LENGTH", length), node(2, "I-SIGNAL-TO-PDU-MAPPINGS")];
    for m in mappings {
        p.extend(m);
    }
    p
}

fn i_signal(name: &str, length: &str, system_signal: Option<&str>) -> Vec<ArxmlElement> {
    let mut s = vec![named(1, "I-SIGNAL", name), leaf(2, "LENGTH", length)];
    if let Some(sys) = system_signal {
        s.push(leaf(2, "SYSTEM-SIGNAL-REF", &format!("/Pkg/{}", sys)));
    }
    s
}

fn document(parts: Vec<Vec<ArxmlElement>>) -> ArxmlDocument {
    let mut elements = vec![node(0, "AUTOSAR")];
    for p in parts {
        elements.extend(p);
    }
    ArxmlDocument { elements }
}

fn engine_document() -> ArxmlDocument {
    document(vec![
        frame("EngineFrame", "0x123", "EnginePdu"),
        signal_pdu(
            "EnginePdu",
            "8",
            vec![
                mapping(3, "Speed", "0", Some("MOST-SIGNIFICANT-BYTE-LAST")),
                mapping(3, "Temp", "16", Some("MOST-SIGNIFICANT-BYTE-FIRST")),
                vec![node(3, "I-SIGNAL-TO-I-PDU-MAPPING"), leaf(4, "START-POSITION", "5")],
                mapping(3, "Unknown", "x", None),
            ],
        ),
        i_signal("Speed", "16", Some("SpeedSys")),
        i_signal("Temp", "12", None),
        vec![
            named(1, "SYSTEM-SIGNAL", "SpeedSys"),
            leaf(2, "UNIT-REF", "/Units/rpm"),
            node(2, "COMPU-METHOD"),
            node(3, "COMPU-INTERNAL-TO-PHYS"),
            node(4, "COMPU-SCALES"),
            node(5, "COMPU-SCALE"),
            leaf(6, "LOWER-LIMIT", "0"),
            leaf(6, "UPPER-LIMIT", "INF"),
            node(6, "COMPU-RATIONAL-COEFFS"),
            node(7, "COMPU-NUMERATOR"),
            leaf(8, "V", "-40"),
            leaf(8, "V", "0.25"),
            node(5, "COMPU-SCALE"),
            leaf(6, "LOWER-LIMIT", "7"),
        ],
    ])
}

#[test]
fn signal_pdu_becomes_a_message() {
    let (messages, containers) = parse_document(&engine_document(), "system.arxml");
    assert!(containers.is_empty());
    assert_eq!(messages.len(), 1);
    let m = &messages[0];
    assert_eq!(m.id, 0x123);
    assert_eq!(m.name, "EnginePdu");
    assert_eq!(m.size, 8);
    assert_eq!(m.sender, None);
    assert!(!m.is_multiplexed);
    assert_eq!(m.multiplexer_signal, None);
    assert_eq!(m.source, "system.arxml");
    let names: Vec<&str> = m.signals.iter().map(|s| s.name.as_str()).collect();
    assert_eq!(names, vec!["Speed", "Temp", "Unknown"]);

    let speed = &m.signals[0];
    assert_eq!(speed.start_bit, 0);
    assert_eq!(speed.length, 16);
    assert_eq!(speed.byte_order, ByteOrder::LittleEndian);
    assert_eq!(speed.value_type, ValueType::Unsigned);
    assert_eq!(speed.factor, Scalar::from_bits(0.25f64.to_bits()));
    assert_eq!(speed.offset, Scalar::from_bits((-40.0f64).to_bits()));
    assert_eq!(speed.min, Scalar::from_bits(0.0f64.to_bits()));
    // The upper limit is no finite number, so the range of the bits stands.
    assert_eq!(speed.max, Scalar::whole(65535));
    assert_eq!(speed.unit, Some("rpm".to_string()));
    assert!(speed.value_table.is_none());
    assert!(speed.multiplexer_info.is_none());

    let temp = &m.signals[1];
    assert_eq!(temp.start_bit, 16);
    assert_eq!(temp.length, 12);
    assert_eq!(temp.byte_order, ByteOrder::BigEndian);
    assert_eq!(temp.factor, Scalar::whole(1));
    assert_eq!(temp.offset, Scalar::whole(0));
    assert_eq!(temp.min, Scalar::whole(0));
    assert_eq!(temp.max, Scalar::whole(4095));
    assert_eq!(temp.unit, None);

    let unknown = &m.signals[2];
    assert_eq!(unknown.start_bit, 0);
    assert_eq!(unknown.length, 8);
    assert_eq!(unknown.max, Scalar::whole(255));
    assert_eq!(unknown.byte_order, ByteOrder::LittleEndian);
}

#[test]
fn pdu_without_identifier_or_signals_is_left_out() {
    let doc = document(vec![
        frame("FrameA", "16", "WithSignals"),
        frame("FrameB", "17", "NoSignals"),
        frame("FrameC", "not a number", "BadId"),
        signal_pdu("Unmapped", "8", vec![mapping(3, "S", "0", None)]),
        signal_pdu("NoSignals", "8", vec![]),
        signal_pdu("BadId", "8", vec![mapping(3, "S", "0", None)]),
        signal_pdu("WithSignals", "oops", vec![mapping(3, "S", "0", None)]),
        vec![el(1, "I-SIGNAL-I-PDU", None, None, None), node(2, "I-SIGNAL-TO-PDU-MAPPINGS")],
    ]);
    let (messages, _) = parse_document(&doc, "x.arxml");
    assert_eq!(messages.len(), 1);
    assert_eq!(messages[0].name, "WithSignals");
    assert_eq!(messages[0].id, 16);
    assert_eq!(messages[0].size, 8);
}

#[test]
fn identifiers_are_read_in_decimal_and_hexadecimal() {
    assert_eq!(ArxmlParser::parse_can_id("291"), Some(291));
    assert_eq!(ArxmlParser::parse_can_id(" 0x123 "), Some(0x123));
    assert_eq!(ArxmlParser::parse_can_id("0X7ff\n"), Some(0x7FF));
    assert_eq!(ArxmlParser::parse_can_id("0xFFFFFFFF"), Some(0xFFFF_FFFF));
    assert_eq!(ArxmlParser::parse_can_id("0x100000000"), None);
    assert_eq!(ArxmlParser::parse_can_id("4294967296"), None);
    assert_eq!(ArxmlParser::parse_can_id("0x"), None);
    assert_eq!(ArxmlParser::parse_can_id(""), None);
    assert_eq!(ArxmlParser::parse_can_id("12 3"), None);
    assert_eq!(ArxmlParser::parse_can_id("x12"), None);
}

#[test]
fn later_mapping_of_a_pdu_name_counts() {
    let doc = document(vec![
        frame("FrameA", "1", "Pdu"),
        frame("FrameB", "2", "Pdu"),
        signal_pdu("Pdu", "8", vec![mapping(3, "S", "0", None)]),
    ]);
    let ids = ArxmlParser::build_pdu_to_can_id_map(&doc);
    assert_eq!(ids.len(), 2);
    assert_eq!((ids[0].name.as_str(), ids[0].id), ("Pdu", 1));
    assert_eq!((ids[1].name.as_str(), ids[1].id), ("Pdu", 2));
    let (messages, _) = parse_document(&doc, "x.arxml");
    assert_eq!(messages[0].id, 2);
}

#[test]
fn sub_elements_are_the_children_of_an_element() {
    let doc = ArxmlDocument {
        elements: vec![
            node(0, "ROOT"),
            node(1, "A"),
            leaf(2, "B", "inner"),
            leaf(3, "C", "deep"),
            leaf(1, "B", "first"),
            leaf(1, "B", "second"),
            node(0, "OTHER"),
            leaf(1, "B", "elsewhere"),
        ],
    };
    assert_eq!(doc.find_sub_element(0, "B"), Some(4));
    assert_eq!(doc.find_sub_element(0, "C"), None);
    assert_eq!(doc.find_sub_element(1, "B"), Some(2));
    assert_eq!(doc.find_sub_element(5, "B"), None);
    assert_eq!(doc.find_all_sub_elements(0, "B"), vec![4, 5]);
    assert_eq!(doc.find_all_sub_elements(6, "B"), vec![7]);
    assert_eq!(doc.find_all_sub_elements(7, "B"), Vec::<usize>::new());
    assert_eq!(doc.get_sub_element_text(0, "B"), Some(&"first".to_string()));
    assert_eq!(doc.get_sub_element_text(0, "A"), None);
}

#[test]
fn elements_are_found_by_name_and_path() {
    let doc = engine_document();
    let speed = doc.find_element_by_short_name("Speed").unwrap();
    assert_eq!(doc.elements[speed].tag, "I-SIGNAL");
    assert_eq!(doc.find_element_by_path("/Pkg/Speed"), Some(speed));
    assert_eq!(doc.find_element_by_short_name("Nothing"), None);
    assert_eq!(doc.find_element_by_path("/Pkg"), None);
}

#[test]
fn constant_scale_has_factor_zero() {
    let doc = document(vec![
        frame("F", "1", "P"),
        signal_pdu("P", "8", vec![mapping(3, "S", "0", None)]),
        i_signal("S", "4", Some("Sys")),
        vec![
            named(1, "SYSTEM-SIGNAL", "Sys"),
            leaf(2, "COMPU-METHOD-REF", "/Pkg/Method"),
            named(1, "COMPU-METHOD", "Method"),
            node(2, "COMPU-INTERNAL-TO-PHYS"),
            node(3, "COMPU-SCALES"),
            node(4, "COMPU-SCALE"),
            leaf(5, "UPPER-LIMIT", "1.5e1"),
            node(5, "COMPU-RATIONAL-COEFFS"),
            node(6, "COMPU-NUMERATOR"),
            leaf(7, "V", "1"),
            node(5, "COMPU-CONST"),
            leaf(6, "VT", "7.5"),
        ],
    ]);
    let (messages, _) = parse_document(&doc, "x.arxml");
    let s = &messages[0].signals[0];
    assert_eq!(s.factor, Scalar::whole(0));
    assert_eq!(s.offset, Scalar::from_bits(7.5f64.to_bits()));
    assert_eq!(s.min, Scalar::whole(0));
    assert_eq!(s.max, Scalar::from_bits(15.0f64.to_bits()));
    assert_eq!(s.length, 4);
}

fn multiplexed_document() -> ArxmlDocument {
    document(vec![
        frame("MuxFrame", "0x200", "MuxPdu"),
        vec![
            named(1, "MULTIPLEXED-I-PDU", "MuxPdu"),
            leaf(2, "LENGTH", "8"),
            leaf(2, "SELECTOR-FIELD-LENGTH", "4"),
            leaf(2, "SELECTOR-FIELD-START-POSITION", "60"),
            node(2, "STATIC-PARTS"),
            leaf(3, "I-PDU-REF", "/Pkg/StaticPdu"),
            node(2, "DYNAMIC-PARTS"),
            node(3, "DYNAMIC-PART-ALTERNATIVE"),
            leaf(4, "SELECTOR-FIELD-CODE", "0"),
            leaf(4, "I-PDU-REF", "/Pkg/DynA"),
            node(3, "DYNAMIC-PART-ALTERNATIVE"),
            leaf(4, "SELECTOR-FIELD-CODE", "5"),
            leaf(4, "I-PDU-REF", "/Pkg/Missing"),
            leaf(4, "I-PDU-REF", "/Pkg/DynB"),
        ],
        signal_pdu("StaticPdu", "8", vec![mapping(3, "Always", "0", None)]),
        signal_pdu("DynA", "8", vec![mapping(3, "A1", "8", None), mapping(3, "A2", "16", None)]),
        signal_pdu("DynB", "8", vec![mapping(3, "B1", "8", None)]),
    ])
}

#[test]
fn multiplexed_pdu_becomes_a_multiplexed_message() {
    let (messages, _) = parse_document(&multiplexed_document(), "x.arxml");
    assert_eq!(messages.len(), 1);
    let m = &messages[0];
    assert_eq!(m.id, 0x200);
    assert_eq!(m.name, "MuxPdu");
    assert!(m.is_multiplexed);
    assert_eq!(m.multiplexer_signal, Some("MuxPdu_selector".to_string()));
    let summary: Vec<(&str, Option<Vec<u64>>)> = m
        .signals
        .iter()
        .map(|s| (s.name.as_str(), s.multiplexer_info.as_ref().map(|i| i.multiplexer_values.clone())))
        .collect();
    assert_eq!(
        summary,
        vec![
            ("MuxPdu_selector", None),
            ("Always", None),
            ("A1", Some(vec![0])),
            ("A2", Some(vec![0])),
            ("B1", Some(vec![5])),
        ]
    );
    let selector = &m.signals[0];
    assert_eq!(selector.start_bit, 60);
    assert_eq!(selector.length, 4);
    assert_eq!(selector.max, Scalar::whole(15));
    assert_eq!(selector.byte_order, ByteOrder::LittleEndian);
    assert_eq!(m.signals[2].multiplexer_info.as_ref().unwrap().multiplexer_signal, "MuxPdu_selector");
}

#[test]
fn multiplexed_pdu_without_parts_has_its_selector() {
    let doc = document(vec![
        frame("MuxFrame", "0x200", "MuxPdu"),
        vec![named(1, "MULTIPLEXED-I-PDU", "MuxPdu"), leaf(2, "SELECTOR-FIELD-LENGTH", "64")],
    ]);
    let (messages, _) = parse_document(&doc, "x.arxml");
    let m = &messages[0];
    assert_eq!(m.size, 10);
    assert_eq!(m.signals.len(), 1);
    assert_eq!(m.signals[0].length, 64);
    assert_eq!(m.signals[0].max, Scalar::whole(u64::MAX));
    assert_eq!(m.signals[0].start_bit, 0);
}

fn container_document(header: Option<&str>, length: &str) -> ArxmlDocument {
    let mut container = vec![named(1, "CONTAINER-I-PDU", "Box"), leaf(2, "LENGTH", length)];
    if let Some(h) = header {
        container.push(leaf(2, "HEADER-TYPE", h));
    }
    container.extend(vec![
        node(2, "CONTAINED-PDU-TRIGGERING-REFS"),
        leaf(3, "CONTAINED-PDU-TRIGGERING-REF", "/Pkg/TrigA"),
        leaf(3, "CONTAINED-PDU-TRIGGERING-REF", "/Pkg/Nowhere"),
        leaf(3, "CONTAINED-PDU-TRIGGERING-REF", "/Pkg/TrigB"),
        leaf(3, "CONTAINED-PDU-TRIGGERING-REF", "/Pkg/TrigC"),
    ]);
    document(vec![
        frame("BoxFrame", "0x300", "Box"),
        container,
        vec![
            named(1, "PDU-TRIGGERING", "TrigA"),
            leaf(2, "I-PDU-REF", "/Pkg/PduA"),
            named(1, "PDU-TRIGGERING", "TrigB"),
            leaf(2, "I-PDU-REF", "/Pkg/PduB"),
            named(1, "PDU-TRIGGERING", "TrigC"),
            leaf(2, "I-PDU-REF", "/Elsewhere/PduC"),
        ],
        signal_pdu("PduA", "4", vec![]),
        signal_pdu("PduB", "6", vec![]),
    ])
}

#[test]
fn container_pdu_becomes_a_container() {
    let (messages, containers) = parse_document(&container_document(None, "64"), "x.arxml");
    assert!(messages.is_empty());
    assert_eq!(containers.len(), 1);
    let c = &containers[0];
    assert_eq!(c.id, 0x300);
    assert_eq!(c.name, "Box");
    assert_eq!(c.container_type, ContainerType::Static);
    assert_eq!(c.source, "x.arxml");
    match &c.layout {
        ContainerLayout::Static { pdus } => {
            let layout: Vec<(&str, usize, usize)> =
                pdus.iter().map(|p| (p.name.as_str(), p.position, p.size)).collect();
            assert_eq!(layout, vec![("PduA", 0, 4), ("PduB", 4, 6), ("PduC", 10, 8)]);
            assert_eq!(pdus[0].pdu_id, ArxmlParser::generate_pdu_id("PduA"));
            assert!(pdus.iter().all(|p| p.pdu_id <= 0xFFFF));
        }
        other => panic!("unexpected {:?}", other),
    }
}

#[test]
fn header_type_selects_the_layout() {
    let (_, short) = parse_document(&container_document(Some("SHORT-HEADER"), "64"), "x");
    assert_eq!(short[0].container_type, ContainerType::Dynamic);
    assert!(matches!(&short[0].layout, ContainerLayout::Dynamic { header_size: 4, pdus } if pdus.len() == 3));
    let (_, long) = parse_document(&container_document(Some("LONG-HEADER"), "64"), "x");
    assert!(matches!(&long[0].layout, ContainerLayout::Dynamic { header_size: 8, .. }));
    let (_, none) = parse_document(&container_document(Some("NO-HEADER"), "64"), "x");
    assert_eq!(none[0].container_type, ContainerType::Static);
}

#[test]
fn layout_ends_before_the_pdu_that_exceeds_the_container() {
    let (_, containers) = parse_document(&container_document(None, "9"), "x");
    match &containers[0].layout {
        ContainerLayout::Static { pdus } => {
            let layout: Vec<(&str, usize, usize)> =
                pdus.iter().map(|p| (p.name.as_str(), p.position, p.size)).collect();
            assert_eq!(layout, vec![("PduA", 0, 4)]);
            assert!(pdus.iter().all(|p| p.position + p.size <= 9));
        }
        other => panic!("unexpected {:?}", other),
    }
    let (_, narrow) = parse_document(&container_document(None, "3"), "x");
    match &narrow[0].layout {
        ContainerLayout::Static { pdus } => assert!(pdus.is_empty()),
        other => panic!("unexpected {:?}", other),
    }
    let (_, exact) = parse_document(&container_document(None, "10"), "x");
    match &exact[0].layout {
        ContainerLayout::Static { pdus } => {
            assert_eq!(pdus.len(), 2);
            assert_eq!(pdus[1].position + pdus[1].size, 10);
        }
        other => panic!("unexpected {:?}", other),
    }
    let (_, filled) = parse_document(&container_document(None, "18"), "x");
    match &filled[0].layout {
        ContainerLayout::Static { pdus } => assert_eq!(pdus.len(), 3),
        other => panic!("unexpected {:?}", other),
    }
}

#[test]
fn identifier_is_read_without_the_whitespace_at_its_ends() {
    let blank = |c: char| {
        matches!(
            c as u32,
            0x09..=0x0D
                | 0x20
                | 0x85
                | 0xA0
                | 0x1680
                | 0x2000..=0x200A
                | 0x2028
                | 0x2029
                | 0x202F
                | 0x205F
                | 0x3000
        )
    };
    let mut blanks = 0;
    for n in 0..=0x10FFFFu32 {
        let c = match char::from_u32(n) {
            Some(c) if !c.is_ascii_digit() => c,
            _ => continue,
        };
        let text = format!("{c}{c}7{c}");
        if blank(c) {
            blanks += 1;
            assert_eq!(ArxmlParser::parse_can_id(&text), Some(7), "U+{n:04X}");
        } else {
            assert_eq!(ArxmlParser::parse_can_id(&text), None, "U+{n:04X}");
        }
    }
    assert_eq!(blanks, 25);
    assert_eq!(ArxmlParser::parse_can_id("\t\r\n 0x1F \u{3000}"), Some(0x1F));
    assert_eq!(ArxmlParser::parse_can_id(" \u{200B}7"), None);
    assert_eq!(ArxmlParser::parse_can_id("  "), None);
}

#[test]
fn pdu_identifier_is_a_hash_of_the_name() {
    let a = ArxmlParser::generate_pdu_id("PduA");
    assert_eq!(a, ArxmlParser::generate_pdu_id("PduA"));
    assert!(a <= 0xFFFF);
    let names = ["PduA", "PduB", "PduC", "PduD", "Engine", "Brake", "", "x"];
    let distinct: std::collections::HashSet<u32> =
        names.iter().map(|n| ArxmlParser::generate_pdu_id(n)).collect();
    assert!(distinct.len() > 1);
}

const SYSTEM_ARXML: &str = r#"<?xml version="1.0" encoding="utf-8"?>
<AUTOSAR xsi:schemaLocation="http://autosar.org/schema/r4.0 AUTOSAR_00048.xsd" xmlns="http://autosar.org/schema/r4.0" xmlns:xsi="http://www.w3.org/2001/XMLSchema-instance">
  <AR-PACKAGES>
    <AR-PACKAGE>
      <SHORT-NAME>Pkg</SHORT-NAME>
      <ELEMENTS>
        <CAN-CLUSTER>
          <SHORT-NAME>Cluster</SHORT-NAME>
          <CAN-CLUSTER-VARIANTS>
            <CAN-CLUSTER-CONDITIONAL>
              <PHYSICAL-CHANNELS>
                <CAN-PHYSICAL-CHANNEL>
                  <SHORT-NAME>Channel</SHORT-NAME>
                  <FRAME-TRIGGERINGS>
                    <CAN-FRAME-TRIGGERING>
                      <SHORT-NAME>EngineTriggering</SHORT-NAME>
                      <FRAME-REF DEST="CAN-FRAME">/Pkg/EngineFrame</FRAME-REF>
                      <CAN-ADDRESSING-MODE>STANDARD</CAN-ADDRESSING-MODE>
                      <IDENTIFIER>291</IDENTIFIER>
                    </CAN-FRAME-TRIGGERING>
                  </FRAME-TRIGGERINGS>
                </CAN-PHYSICAL-CHANNEL>
              </PHYSICAL-CHANNELS>
            </CAN-CLUSTER-CONDITIONAL>
          </CAN-CLUSTER-VARIANTS>
        </CAN-CLUSTER>
        <CAN-FRAME>
          <SHORT-NAME>EngineFrame</SHORT-NAME>
          <FRAME-LENGTH>8</FRAME-LENGTH>
          <PDU-TO-FRAME-MAPPINGS>
            <PDU-TO-FRAME-MAPPING>
              <SHORT-NAME>EngineMapping</SHORT-NAME>
              <PACKING-BYTE-ORDER>MOST-SIGNIFICANT-BYTE-LAST</PACKING-BYTE-ORDER>
              <PDU-REF DEST="I-SIGNAL-I-PDU">/Pkg/EnginePdu</PDU-REF>
              <START-POSITION>0</START-POSITION>
            </PDU-TO-FRAME-MAPPING>
          </PDU-TO-FRAME-MAPPINGS>
        </CAN-FRAME>
        <I-SIGNAL-I-PDU>
          <SHORT-NAME>EnginePdu</SHORT-NAME>
          <LENGTH>8</LENGTH>
          <I-SIGNAL-TO-PDU-MAPPINGS>
            <I-SIGNAL-TO-I-PDU-MAPPING>
              <SHORT-NAME>SpeedMapping</SHORT-NAME>
              <I-SIGNAL-REF DEST="I-SIGNAL">/Pkg/Speed</I-SIGNAL-REF>
              <PACKING-BYTE-ORDER>MOST-SIGNIFICANT-BYTE-FIRST</PACKING-BYTE-ORDER>
              <START-POSITION>7</START-POSITION>
            </I-SIGNAL-TO-I-PDU-MAPPING>
          </I-SIGNAL-TO-PDU-MAPPINGS>
        </I-SIGNAL-I-PDU>
        <I-SIGNAL>
          <SHORT-NAME>Speed</SHORT-NAME>
          <LENGTH>12</LENGTH>
          <SYSTEM-SIGNAL-REF DEST="SYSTEM-SIGNAL">/Pkg/SpeedSys</SYSTEM-SIGNAL-REF>
        </I-SIGNAL>
        <SYSTEM-SIGNAL>
          <SHORT-NAME>SpeedSys</SHORT-NAME>
        </SYSTEM-SIGNAL>
      </ELEMENTS>
    </AR-PACKAGE>
  </AR-PACKAGES>
</AUTOSAR>
"#;

#[test]
fn description_file_is_loaded_into_a_document() {
    let doc = load_document(SYSTEM_ARXML.as_bytes(), "system.arxml").unwrap();
    assert_eq!(doc.elements[0].depth, 0);
    assert_eq!(doc.elements[0].tag, "AUTOSAR");
    assert_eq!(doc.elements[1].depth, 1);
    assert_eq!(doc.elements[1].tag, "AR-PACKAGES");
    let frame = doc.find_element_by_short_name("EngineFrame").unwrap();
    assert_eq!(doc.elements[frame].tag, "CAN-FRAME");
    assert_eq!(doc.elements[frame].path, Some("/Pkg/EngineFrame".to_string()));
    assert_eq!(doc.elements[frame].text, None);
    let triggering = doc.find_element_by_short_name("EngineTriggering").unwrap();
    assert_eq!(doc.get_sub_element_text(triggering, "IDENTIFIER"), Some(&"291".to_string()));
    assert_eq!(
        doc.get_sub_element_text(triggering, "FRAME-REF"),
        Some(&"/Pkg/EngineFrame".to_string())
    );
    let short_name = doc.find_sub_element(frame, "SHORT-NAME").unwrap();
    assert_eq!(doc.elements[short_name].depth, doc.elements[frame].depth + 1);
    assert_eq!(doc.elements[short_name].text, Some("EngineFrame".to_string()));
    assert_eq!(doc.elements[short_name].name, None);
}

#[test]
fn description_file_gives_its_messages() {
    let (messages, containers) = parse_arxml_file(SYSTEM_ARXML.as_bytes(), "system.arxml").unwrap();
    assert!(containers.is_empty());
    assert_eq!(messages.len(), 1);
    assert_eq!(messages[0].id, 291);
    assert_eq!(messages[0].name, "EnginePdu");
    assert_eq!(messages[0].size, 8);
    assert_eq!(messages[0].source, "system.arxml");
    let s = &messages[0].signals[0];
    assert_eq!(s.name, "Speed");
    assert_eq!(s.start_bit, 7);
    assert_eq!(s.length, 12);
    assert_eq!(s.byte_order, ByteOrder::BigEndian);
    assert_eq!(s.max, Scalar::whole(4095));
}

#[test]
fn text_that_is_no_description_is_refused() {
    assert!(matches!(
        parse_arxml_file(b"this is not xml", "bad.arxml"),
        Err(DecoderError::ArxmlParseError(_))
    ));
    assert!(matches!(load_document(b"", "empty.arxml"), Err(DecoderError::ArxmlParseError(_))));
    match parse_arxml_file(b"this is not xml", "bad.arxml") {
        Err(DecoderError::ArxmlParseError(text)) => {
            assert!(text.starts_with("Failed to load ARXML: "));
            assert!(text.len() > "Failed to load ARXML: ".len());
        }
        other => panic!("unexpected {:?}", other),
    }
}

#[test]
fn decoder_takes_the_definitions_of_a_description() {
    let mut decoder = Decoder::new();
    decoder.add_arxml(SYSTEM_ARXML.as_bytes(), "system.arxml").unwrap();
    assert_eq!(decoder.database_stats().num_messages, 1);
    assert_eq!(decoder.database_stats().num_signals, 1);
    assert_eq!(decoder.database_stats().num_containers, 0);
    assert!(decoder.add_arxml(b"<AUTOSAR", "bad.arxml").is_err());
    assert_eq!(decoder.database_stats().num_messages, 1);
}

#[test]
fn conversion_is_made_up_of_the_parts_of_a_scale() {
    let two = Scalar::from_bits(2.0f64.to_bits());
    let three = Scalar::from_bits(3.0f64.to_bits());
    let c = Conversion::of_parts(None, None, None, None);
    assert_eq!((c.factor, c.offset, c.min, c.max), (Scalar::whole(1), Scalar::whole(0), None, None));
    let c = Conversion::of_parts(Some(two), Some(three), Some((Some(three), Some(two))), None);
    assert_eq!((c.factor, c.offset, c.min, c.max), (two, three, Some(two), Some(three)));
    let c = Conversion::of_parts(None, None, Some((None, Some(two))), None);
    assert_eq!((c.factor, c.offset), (two, Scalar::whole(0)));
    let c = Conversion::of_parts(None, None, Some((Some(three), None)), None);
    assert_eq!((c.factor, c.offset), (Scalar::whole(1), three));
    let c = Conversion::of_parts(None, None, Some((Some(three), Some(two))), Some(two));
    assert_eq!((c.factor, c.offset), (Scalar::whole(0), two));
}

#[test]
fn properties_take_finite_limits_only() {
    let infinite = Scalar::from_bits(f64::INFINITY.to_bits());
    let five = Scalar::from_bits(5.0f64.to_bits());
    let half = Scalar::from_bits(0.5f64.to_bits());
    let plain = SignalProperties::with_conversion(10, None, None);
    assert_eq!(
        (plain.factor, plain.offset, plain.min, plain.max, plain.unit.clone()),
        (Scalar::whole(1), Scalar::whole(0), Scalar::whole(0), Scalar::whole(1023), None)
    );
    let c = Conversion { factor: half, offset: five, min: Some(infinite), max: Some(five) };
    let p = SignalProperties::with_conversion(10, Some("V".to_string()), Some(c));
    assert_eq!(
        (p.factor, p.offset, p.min, p.max, p.unit),
        (half, five, Scalar::whole(0), five, Some("V".to_string()))
    );
    let wide = SignalProperties::with_conversion(64, None, None);
    assert_eq!(wide.max, Scalar::whole(u64::MAX));
    let none = SignalProperties::with_conversion(0, None, None);
    assert_eq!(none.max, Scalar::whole(0));
}

#[test]
fn identifier_without_whitespace() {
    assert_eq!(ArxmlParser::read_can_id("0x1F"), Some(31));
    assert_eq!(ArxmlParser::read_can_id("31"), Some(31));
    assert_eq!(ArxmlParser::read_can_id(" 31"), None);
    assert_eq!(ArxmlParser::read_can_id("0x 1"), None);
}

#[test]
fn test_arxml_file_not_found() {
    // A file that is not there yields no bytes to parse.
    let result = parse_arxml_file(&[], "nonexistent.arxml");
    assert!(result.is_err());
}

#[test]
fn loaded_document_is_in_document_order() {
    let doc = load_document(SYSTEM_ARXML.as_bytes(), "system.arxml").unwrap();
    assert!(doc.elements.len() > 40);
    assert_eq!(doc.elements[0].depth, 0);
    for i in 1..doc.elements.len() {
        assert!(doc.elements[i].depth >= 1);
        assert!(doc.elements[i].depth <= doc.elements[i - 1].depth + 1);
    }
    // Every element of the file is listed once, children in the order of the file.
    let tags: Vec<&str> = doc.elements.iter().map(|e| e.tag.as_str()).collect();
    assert_eq!(tags.iter().filter(|t| **t == "SHORT-NAME").count(), 10);
    assert_eq!(tags[..6], ["AUTOSAR", "AR-PACKAGES", "AR-PACKAGE", "SHORT-NAME", "ELEMENTS", "CAN-CLUSTER"]);
    let depths: Vec<usize> = doc.elements[..6].iter().map(|e| e.depth).collect();
    assert_eq!(depths, vec![0, 1, 2, 3, 3, 4]);
}

#[test]
fn file_is_accepted_or_refused_as_a_whole() {
    // The same bytes give the same outcome.
    for _ in 0..2 {
        assert!(parse_arxml_file(SYSTEM_ARXML.as_bytes(), "a.arxml").is_ok());
        assert!(parse_arxml_file(&SYSTEM_ARXML.as_bytes()[..200], "a.arxml").is_err());
    }
    let mut decoder = Decoder::new();
    decoder.add_arxml(SYSTEM_ARXML.as_bytes(), "a.arxml").unwrap();
    decoder.add_arxml(SYSTEM_ARXML.as_bytes(), "b.arxml").unwrap();
    let db = decoder.signal_database();
    assert_eq!(db.stats().num_messages, 2);
    let both = db.get_messages(291).unwrap();
    assert_eq!(both[0].source, "a.arxml");
    assert_eq!(both[1].source, "b.arxml");
    assert_eq!(both[0].signals[0].name, both[1].signals[0].name);
}
