//! Decoding a synthetic windowed binary PSF file built byte by byte, the
//! analysis views over it and over hand-built trees of the human-readable
//! dialect, the primitive readers, and the failure modes of malformed input.

use psf::ac::AcData;
use psf::ascii;
use psf::ast::{DataType, Header, NamedValue, TraceId, Value, Values};
use psf::binary::{parse, PsfParser};
use psf::dc::DcData;
use psf::errors::PsfError;
use psf::reader::parse_string;
use psf::search::{bin_search_before, f64_total_key};
use psf::toc::SectionKind;
use psf::transient::TransientData;

pub fn push_u32(out: &mut Vec<u8>, v: u32) {
    out.extend_from_slice(&v.to_be_bytes());
}

pub fn push_f64(out: &mut Vec<u8>, v: f64) {
    out.extend_from_slice(&v.to_be_bytes());
}

pub fn push_padded_string(out: &mut Vec<u8>, s: &str) {
    let b = s.as_bytes();
    push_u32(out, b.len() as u32);
    out.extend_from_slice(b);
    let pad = (4 - b.len() % 4) % 4;
    for _ in 0..pad {
        out.push(0);
    }
}

fn push_int_record(out: &mut Vec<u8>, name: &str, v: i32) {
    push_u32(out, 34);
    push_padded_string(out, name);
    push_u32(out, v as u32);
}

fn push_signal_ref(out: &mut Vec<u8>, id: u32, name: &str, type_id: u32) {
    push_u32(out, id);
    push_padded_string(out, name);
    push_u32(out, type_id);
}

/// Builds the whole fixture: sweep "time" of three points, one group holding
/// a complex signal "vp" (trace 26, type 12) and a real signal "out" (trace
/// 25, type 11), window size 32, two windows of two and one samples.
pub fn build_file() -> Vec<u8> {
    let mut f: Vec<u8> = Vec::new();

    // Header section.
    let h_start = f.len();
    push_u32(&mut f, 0);
    let h_eofs_pos = f.len();
    push_u32(&mut f, 0); // end offset, patched below
    push_int_record(&mut f, "PSF window size", 32);
    push_int_record(&mut f, "PSF traces", 2);
    push_int_record(&mut f, "PSF sweep points", 3);
    let h_end = f.len();
    f[h_eofs_pos..h_eofs_pos + 4].copy_from_slice(&(h_end as u32).to_be_bytes());

    // Type section: container prolog, then two records.
    let t_start = f.len();
    push_u32(&mut f, 0);
    push_u32(&mut f, 0);
    push_u32(&mut f, 22);
    let t_eofs_pos = f.len();
    push_u32(&mut f, 0);
    // Real type, id 11.
    push_u32(&mut f, 16);
    push_u32(&mut f, 11);
    push_padded_string(&mut f, "rt");
    push_u32(&mut f, 0);
    push_u32(&mut f, 11);
    // Complex type, id 12.
    push_u32(&mut f, 16);
    push_u32(&mut f, 12);
    push_padded_string(&mut f, "ct");
    push_u32(&mut f, 0);
    push_u32(&mut f, 12);
    let t_end = f.len();
    f[t_eofs_pos..t_eofs_pos + 4].copy_from_slice(&(t_end as u32).to_be_bytes());

    // Sweep section: one signal reference, tag 16.
    let s_start = f.len();
    push_u32(&mut f, 0);
    let s_eofs_pos = f.len();
    push_u32(&mut f, 0);
    push_u32(&mut f, 16);
    push_signal_ref(&mut f, 1, "time", 11);
    let s_end = f.len();
    f[s_eofs_pos..s_eofs_pos + 4].copy_from_slice(&(s_end as u32).to_be_bytes());

    // Trace section: one group of two signals, complex first.
    let tr_start = f.len();
    push_u32(&mut f, 0);
    push_u32(&mut f, 0);
    push_u32(&mut f, 22);
    let tr_eofs_pos = f.len();
    push_u32(&mut f, 0);
    push_u32(&mut f, 17); // group
    push_u32(&mut f, 24); // group id
    push_padded_string(&mut f, "grp");
    push_u32(&mut f, 2); // declared count
    push_u32(&mut f, 16);
    push_signal_ref(&mut f, 26, "vp", 12);
    push_u32(&mut f, 16);
    push_signal_ref(&mut f, 25, "out", 11);
    let tr_end = f.len();
    f[tr_eofs_pos..tr_eofs_pos + 4].copy_from_slice(&(tr_end as u32).to_be_bytes());

    // Value section: prolog, zero-length filler, two windows.
    let v_start = f.len();
    push_u32(&mut f, 0);
    push_u32(&mut f, 0); // ignored end word
    push_u32(&mut f, 20); // block tag
    push_u32(&mut f, 0); // filler length
    push_u32(&mut f, 0); // the four bytes the filler skip always covers

    // Window 1: two samples. Layout from the first sweep byte: 16 sweep
    // bytes, then two 32-byte slabs; "vp" (leaf 0) occupies [32, 64) as four
    // doubles, "out" (leaf 1) the right-aligned [64, 80).
    push_u32(&mut f, 2);
    push_f64(&mut f, 0.0);
    push_f64(&mut f, 1.0);
    for _ in 0..2 {
        push_f64(&mut f, 0.0); // slab padding [16, 32)
    }
    push_f64(&mut f, 0.25);
    push_f64(&mut f, -0.25);
    push_f64(&mut f, 0.5);
    push_f64(&mut f, -0.5);
    push_f64(&mut f, 1.5);
    push_f64(&mut f, 2.5);

    // Window 2: one sample. Sweep bytes, then "vp" at [32, 48) and "out" at
    // [64, 72) of the 72-byte window body; the rest is padding.
    push_u32(&mut f, 1);
    push_f64(&mut f, 2.0);
    for _ in 0..3 {
        push_f64(&mut f, 0.0); // [8, 32)
    }
    push_f64(&mut f, 0.75);
    push_f64(&mut f, -0.75);
    for _ in 0..2 {
        push_f64(&mut f, 0.0); // [48, 64)
    }
    push_f64(&mut f, 3.5);
    let _ = v_start;

    // Trailing directory: five entries, eight padding bytes, payload size.
    let ds = f.len() as u32;
    for (kind, start) in [
        (0u32, h_start as u32),
        (1, t_start as u32),
        (2, s_start as u32),
        (3, tr_start as u32),
        (4, v_start as u32),
    ] {
        push_u32(&mut f, kind);
        push_u32(&mut f, start);
    }
    push_u32(&mut f, 0);
    push_u32(&mut f, 0);
    push_u32(&mut f, ds);
    f
}

pub fn bits(v: f64) -> u64 {
    v.to_bits()
}

#[test]
fn decodes_fixture_values() {
    let file = build_file();
    let ast = parse(&file).expect("fixture should decode");

    // Header control parameters survive as integers.
    assert_eq!(
        ast.header.get(b"PSF window size"),
        Some(&Value::Int(32))
    );
    assert_eq!(ast.header.get(b"PSF traces"), Some(&Value::Int(2)));
    assert_eq!(ast.header.get(b"PSF sweep points"), Some(&Value::Int(3)));

    // Types resolve through the table.
    assert_eq!(
        ast.types.get(psf::ast::TypeId(11)).map(|t| t.data_type),
        Some(DataType::Real)
    );
    assert_eq!(
        ast.types.get(psf::ast::TypeId(12)).map(|t| t.data_type),
        Some(DataType::Complex)
    );

    // One sweep variable named "time".
    assert_eq!(ast.sweeps.len(), 1);
    assert_eq!(ast.sweeps[0].name, b"time".to_vec());

    // The sweep vector holds exactly the sweep-point count of samples.
    let sweep = ast.values.get(TraceId(1)).expect("sweep vector");
    assert_eq!(
        sweep,
        &Values::Real(vec![bits(0.0), bits(1.0), bits(2.0)])
    );

    // Real leaf: one double per sample, right-aligned in its slab.
    let out = ast.values.get(TraceId(25)).expect("out vector");
    assert_eq!(
        out,
        &Values::Real(vec![bits(1.5), bits(2.5), bits(3.5)])
    );

    // Complex leaf: a (real, imaginary) pair per sample.
    let vp = ast.values.get(TraceId(26)).expect("vp vector");
    assert_eq!(
        vp,
        &Values::Complex(vec![
            (bits(0.25), bits(-0.25)),
            (bits(0.5), bits(-0.5)),
            (bits(0.75), bits(-0.75)),
        ])
    );
}

#[test]
fn parser_wrapper_round_trip() {
    let file = build_file();
    let mut p = PsfParser::new(&file);
    p.parse().expect("fixture should decode");
    let ast = p.into_inner().expect("tree should be held");
    assert_eq!(ast.traces.len(), 1);
    let g = ast.traces[0].group();
    assert_eq!(g.count, 2);
    assert_eq!(g.signals.len(), 2);
    assert_eq!(g.signals[0].name, b"vp".to_vec());
    assert_eq!(g.signals[1].name, b"out".to_vec());
}

#[test]
fn truncated_buffer_is_rejected_not_crashed() {
    let file = build_file();
    // Directory present but section bytes cut short: drop bytes from the
    // middle of the value section while keeping the trailing directory.
    let cut = 150;
    let mut short = file.clone();
    short.drain(short.len() - 52 - cut..short.len() - 52);
    // Patch the payload size so the directory still parses.
    let ds = (short.len() - 52) as u32;
    let n = short.len();
    short[n - 4..].copy_from_slice(&ds.to_be_bytes());
    // The directory start offsets now point past the shortened payload in
    // the value section, so the decode must fail cleanly.
    let r = parse(&short);
    assert!(r.is_err());
    match r {
        Err(PsfError::OutOfBounds { .. }) => {}
        other => panic!("expected an out-of-bounds rejection, got {other:?}"),
    }
}

#[test]
fn overshooting_window_counts_are_inconsistent() {
    let mut file = build_file();
    // The second window's block-init word declares one sample; claim two, so
    // the windows overshoot the header's three sweep points.
    let len = file.len();
    let w2 = len - 52 - 76;
    file[w2..w2 + 4].copy_from_slice(&2u32.to_be_bytes());
    assert_eq!(parse(&file).unwrap_err(), PsfError::InconsistentSampleCount);
}

#[test]
fn oversized_window_count_overflows_slab() {
    let mut file = build_file();
    // Window size 32 holds at most four doubles; declare five samples.
    let len = file.len();
    let w1 = len - 52 - 76 - 84;
    file[w1..w1 + 4].copy_from_slice(&5u32.to_be_bytes());
    match parse(&file).unwrap_err() {
        PsfError::WindowOverflow { .. } => {}
        other => panic!("expected a window overflow, got {other:?}"),
    }
}

fn real_record(signal: &str, v: f64) -> ascii::SignalValues {
    ascii::SignalValues {
        signal: signal.as_bytes().to_vec(),
        values: Values::Real(vec![bits(v)]),
    }
}

fn complex_record(signal: &str, re: f64, im: f64) -> ascii::SignalValues {
    ascii::SignalValues {
        signal: signal.as_bytes().to_vec(),
        values: Values::Complex(vec![(bits(re), bits(im))]),
    }
}

fn empty_header() -> Header {
    Header { values: Vec::new() }
}

/// The human-readable twin of the binary fixture: the same simulation, with
/// the complex signal's real components, produced in the shape the external
/// grammar-based decoder yields.
fn ascii_twin() -> ascii::PsfAst {
    ascii::PsfAst {
        header: empty_header(),
        types: Vec::new(),
        sweeps: vec![ascii::Sweep {
            name: b"time".to_vec(),
            sweep_type: b"sweep".to_vec(),
            kinds: Vec::new(),
        }],
        traces: vec![
            ascii::Trace::Group {
                name: b"g1".to_vec(),
                count: 1,
            },
            ascii::Trace::Signal {
                name: b"vp".to_vec(),
                units: b"A".to_vec(),
            },
            ascii::Trace::Group {
                name: b"g2".to_vec(),
                count: 1,
            },
            ascii::Trace::Signal {
                name: b"out".to_vec(),
                units: b"V".to_vec(),
            },
        ],
        values: vec![
            real_record("time", 0.0),
            real_record("g1", 0.25),
            real_record("g2", 1.5),
            real_record("time", 1.0),
            real_record("g1", 0.5),
            real_record("g2", 2.5),
            real_record("time", 2.0),
            real_record("g1", 0.75),
            real_record("g2", 3.5),
        ],
    }
}

#[test]
fn transient_from_binary_exposes_members() {
    let file = build_file();
    let ast = psf::binary::parse(&file).expect("fixture should decode");
    let data = TransientData::from_binary(&ast).expect("transient view");
    assert_eq!(data.signals.len(), 3);
    let time = data.signal(b"time").expect("should contain a time signal");
    assert_eq!(time, &vec![bits(0.0), bits(1.0), bits(2.0)]);
    // The complex signal contributes the real component of each pair.
    assert_eq!(
        data.signal(b"vp").expect("vp"),
        &vec![bits(0.25), bits(0.5), bits(0.75)]
    );
    assert_eq!(
        data.signal(b"out").expect("out"),
        &vec![bits(1.5), bits(2.5), bits(3.5)]
    );
    // The group's own name is never a key.
    assert!(data.signal(b"grp").is_none());
}

#[test]
fn cross_format_tables_agree() {
    let file = build_file();
    let ast = psf::binary::parse(&file).expect("fixture should decode");
    let bin = TransientData::from_binary(&ast).expect("transient view");
    let asc = TransientData::from_ast(&ascii_twin()).expect("transient view");
    assert_eq!(asc.signals.len(), 3);
    assert!(bin.eq_exact(&asc));
    assert!(asc.eq_exact(&bin));
}

#[test]
fn cross_format_difference_is_detected() {
    let file = build_file();
    let ast = psf::binary::parse(&file).expect("fixture should decode");
    let bin = TransientData::from_binary(&ast).expect("transient view");
    let mut twin = ascii_twin();
    twin.values[4] = real_record("g1", 0.5000001);
    let asc = TransientData::from_ast(&twin).expect("transient view");
    assert!(!bin.eq_exact(&asc));
}

#[test]
fn idx_before_time_brackets_queries() {
    let file = build_file();
    let ast = psf::binary::parse(&file).expect("fixture should decode");
    let data = TransientData::from_binary(&ast).expect("transient view");
    assert_eq!(data.idx_before_time(bits(-1.0)), None);
    assert_eq!(data.idx_before_time(bits(0.0)), Some(0));
    assert_eq!(data.idx_before_time(bits(0.5)), Some(0));
    assert_eq!(data.idx_before_time(bits(1.0)), Some(1));
    assert_eq!(data.idx_before_time(bits(1.9)), Some(1));
    assert_eq!(data.idx_before_time(bits(2.0)), Some(2));
    assert_eq!(data.idx_before_time(bits(99.0)), Some(2));
}

#[test]
fn bin_search_handles_negatives_and_edges() {
    let v: Vec<u64> = vec![bits(-2.0), bits(-0.5), bits(0.0), bits(3.25)];
    assert_eq!(bin_search_before(&v, bits(-3.0)), None);
    assert_eq!(bin_search_before(&v, bits(-2.0)), Some(0));
    assert_eq!(bin_search_before(&v, bits(-1.0)), Some(0));
    assert_eq!(bin_search_before(&v, bits(-0.25)), Some(1));
    assert_eq!(bin_search_before(&v, bits(0.0)), Some(2));
    assert_eq!(bin_search_before(&v, bits(100.0)), Some(3));
    let empty: Vec<u64> = Vec::new();
    assert_eq!(bin_search_before(&empty, bits(1.0)), None);
}

#[test]
fn ac_view_splits_freq_and_complex_signals() {
    let ast = ascii::PsfAst {
        header: empty_header(),
        types: Vec::new(),
        sweeps: Vec::new(),
        traces: vec![
            ascii::Trace::Group {
                name: b"g1".to_vec(),
                count: 1,
            },
            ascii::Trace::Signal {
                name: b"vout".to_vec(),
                units: b"V".to_vec(),
            },
        ],
        values: vec![
            real_record("freq", 10.0),
            complex_record("g1", 1.0, -1.0),
            real_record("freq", 20.0),
            complex_record("g1", 2.0, -2.0),
        ],
    };
    let data = AcData::from_ast(&ast).expect("ac view");
    assert_eq!(data.freq, vec![bits(10.0), bits(20.0)]);
    assert_eq!(
        data.signal(b"vout").expect("vout"),
        &vec![(bits(1.0), bits(-1.0)), (bits(2.0), bits(-2.0))]
    );
    assert_eq!(data.idx_before_freq(bits(15.0)), Some(0));
    assert_eq!(data.idx_before_freq(bits(5.0)), None);
}

#[test]
fn ac_view_rejects_real_samples_for_signals() {
    let ast = ascii::PsfAst {
        header: empty_header(),
        types: Vec::new(),
        sweeps: Vec::new(),
        traces: vec![ascii::Trace::Signal {
            name: b"vout".to_vec(),
            units: b"V".to_vec(),
        }],
        values: vec![real_record("vout", 1.0)],
    };
    assert_eq!(
        AcData::from_ast(&ast).unwrap_err(),
        psf::errors::PsfError::UnsupportedDataType { got: 11 }
    );
}

#[test]
fn dc_operating_point_needs_single_samples() {
    let traces = vec![ascii::Trace::Signal {
        name: b"vdd".to_vec(),
        units: b"V".to_vec(),
    }];
    let ast = ascii::PsfAst {
        header: empty_header(),
        types: Vec::new(),
        sweeps: Vec::new(),
        traces: traces.clone(),
        values: vec![real_record("vdd", 1.8)],
    };
    match DcData::from_ast(&ast).expect("dc view") {
        DcData::Op(op) => {
            assert_eq!(op.signal(b"vdd"), Some(bits(1.8)));
            assert_eq!(op.signal(b"missing"), None);
        }
        DcData::Sweep(_) => panic!("expected an operating point"),
    }

    // Two samples for one signal make an operating point inconsistent.
    let bad = ascii::PsfAst {
        header: empty_header(),
        types: Vec::new(),
        sweeps: Vec::new(),
        traces,
        values: vec![real_record("vdd", 1.8), real_record("vdd", 1.9)],
    };
    assert_eq!(
        DcData::from_ast(&bad).unwrap_err(),
        psf::errors::PsfError::InconsistentSampleCount
    );
}

#[test]
fn dc_sweep_splits_parameter_and_signals() {
    let ast = ascii::PsfAst {
        header: empty_header(),
        types: Vec::new(),
        sweeps: vec![ascii::Sweep {
            name: b"vin".to_vec(),
            sweep_type: b"dc".to_vec(),
            kinds: Vec::new(),
        }],
        traces: vec![ascii::Trace::Signal {
            name: b"vout".to_vec(),
            units: b"V".to_vec(),
        }],
        values: vec![
            real_record("vin", 0.0),
            real_record("vout", 0.1),
            real_record("vin", 1.0),
            real_record("vout", 0.9),
        ],
    };
    match DcData::from_ast(&ast).expect("dc view") {
        DcData::Sweep(sw) => {
            assert_eq!(sw.param.0, b"vin".to_vec());
            assert_eq!(sw.param.1, vec![bits(0.0), bits(1.0)]);
            assert_eq!(
                sw.signal(b"vout").expect("vout"),
                &vec![bits(0.1), bits(0.9)]
            );
        }
        DcData::Op(_) => panic!("expected a sweep"),
    }
}

#[test]
fn undeclared_signal_is_rejected() {
    let ast = ascii::PsfAst {
        header: empty_header(),
        types: Vec::new(),
        sweeps: Vec::new(),
        traces: Vec::new(),
        values: vec![real_record("ghostly", 1.0)],
    };
    assert_eq!(
        TransientData::from_ast(&ast).unwrap_err(),
        psf::errors::PsfError::UndeclaredSignal
    );
}

#[test]
fn nested_groups_are_unsupported() {
    let ast = ascii::PsfAst {
        header: empty_header(),
        types: Vec::new(),
        sweeps: Vec::new(),
        traces: vec![
            ascii::Trace::Group {
                name: b"outer".to_vec(),
                count: 1,
            },
            ascii::Trace::Group {
                name: b"inner".to_vec(),
                count: 0,
            },
        ],
        values: Vec::new(),
    };
    assert_eq!(
        TransientData::from_ast(&ast).unwrap_err(),
        psf::errors::PsfError::UnsupportedLayout
    );
}

#[test]
fn named_value_shapes_round_trip() {
    let nv = NamedValue {
        name: b"start".to_vec(),
        value: psf::ast::Value::Real(bits(0.0)),
    };
    assert_eq!(nv.value.as_real(), bits(0.0));
    let nv2 = NamedValue {
        name: b"count".to_vec(),
        value: psf::ast::Value::Int(2),
    };
    assert_eq!(nv2.value.as_int(), 2);
    let nv3 = NamedValue {
        name: b"version".to_vec(),
        value: psf::ast::Value::Str(b"1.00".to_vec()),
    };
    assert_eq!(nv3.value.str(), &b"1.00".to_vec());
}


/// The padded-string rule: after the length field, exactly `l + (4 - l % 4) % 4`
/// bytes are consumed, with zero extra padding when `l` is a multiple of four.
#[test]
fn padded_string_consumes_exact_padding() {
    for (l, content) in [
        (0usize, ""),
        (1, "a"),
        (2, "ab"),
        (3, "abc"),
        (4, "abcd"),
        (5, "abcde"),
        (8, "abcdefgh"),
    ] {
        let mut buf: Vec<u8> = Vec::new();
        push_padded_string(&mut buf, content);
        // One trailing marker byte shows where the cursor must land.
        buf.push(0xAB);
        let (name, end) = parse_string(&buf, 0).expect("string should parse");
        assert_eq!(name, content.as_bytes().to_vec());
        let pad = (4 - l % 4) % 4;
        assert_eq!(end, 4 + l + pad);
        assert_eq!(buf[end], 0xAB);
    }
}

#[test]
fn invalid_utf8_is_a_decode_failure() {
    let mut buf: Vec<u8> = Vec::new();
    push_u32(&mut buf, 2);
    buf.push(0xFF);
    buf.push(0xFE);
    buf.push(0);
    buf.push(0);
    assert_eq!(parse_string(&buf, 0).unwrap_err(), PsfError::Utf8Error { at: 4 });
}

#[test]
fn string_reads_past_the_end_are_out_of_bounds() {
    let mut buf: Vec<u8> = Vec::new();
    push_u32(&mut buf, 10);
    buf.push(b'x');
    assert_eq!(
        parse_string(&buf, 0).unwrap_err(),
        PsfError::OutOfBounds { at: 4, want: 10 }
    );
}

#[test]
fn primitive_readers_are_big_endian() {
    let buf: Vec<u8> = vec![0x01, 0x02, 0x03, 0x04, 0x05];
    assert_eq!(psf::reader::peek_u32(&buf, 0), Ok(0x01020304));
    assert_eq!(psf::reader::read_u32(&buf, 1), Ok((0x02030405, 5)));
    assert_eq!(
        psf::reader::read_u32(&buf, 2),
        Err(PsfError::OutOfBounds { at: 2, want: 4 })
    );
    let mut fb: Vec<u8> = Vec::new();
    push_f64(&mut fb, -12.75);
    assert_eq!(psf::reader::read_f64(&fb, 0), Ok(((-12.75f64).to_bits(), 8)));
}

#[test]
fn unknown_section_kind_is_rejected() {
    let mut file = build_file();
    // Overwrite the value section's directory kind code (the fifth entry).
    let n = file.len();
    let entry = n - 12 - 8;
    file[entry..entry + 4].copy_from_slice(&9u32.to_be_bytes());
    assert_eq!(parse(&file).unwrap_err(), PsfError::UnknownSectionKind { got: 9 });
}

#[test]
fn missing_section_is_rejected() {
    let file = build_file();
    // Rebuild the trailing directory without the value section's entry.
    let payload = file.len() - 52;
    let mut short = file[..payload].to_vec();
    for kind in 0u32..4 {
        let start = find_section_start(&file, kind) as u32;
        push_u32(&mut short, kind);
        push_u32(&mut short, start);
    }
    push_u32(&mut short, 0);
    push_u32(&mut short, 0);
    push_u32(&mut short, payload as u32);
    assert_eq!(parse(&short).unwrap_err(), PsfError::MissingSection { got: 4 });
}

#[test]
fn unknown_data_type_code_is_rejected() {
    let mut file = build_file();
    // The first type record's data-type code (11) follows tag 16, id 11,
    // the two-word name "rt" and the array flag inside the type section.
    let t_start = find_section_start(&file, 1);
    let code_pos = t_start + 16 + 4 + 4 + 8 + 4;
    assert_eq!(&file[code_pos..code_pos + 4], &11u32.to_be_bytes());
    file[code_pos..code_pos + 4].copy_from_slice(&7u32.to_be_bytes());
    assert_eq!(parse(&file).unwrap_err(), PsfError::UnknownDataType { got: 7 });
}

#[test]
fn unresolved_type_id_is_rejected() {
    let mut file = build_file();
    // Point the "out" signal at a type the table does not hold. Its type-id
    // word (11) is the last word of the trace section.
    let tr_start = find_section_start(&file, 3);
    let v_start = find_section_start(&file, 4);
    let tid_pos = v_start - 4;
    assert!(tid_pos > tr_start);
    assert_eq!(&file[tid_pos..tid_pos + 4], &11u32.to_be_bytes());
    file[tid_pos..tid_pos + 4].copy_from_slice(&99u32.to_be_bytes());
    assert_eq!(
        parse(&file).unwrap_err(),
        PsfError::UnresolvedType { type_id: 99 }
    );
}

#[test]
fn duplicate_trace_ids_are_rejected() {
    let mut file = build_file();
    // Give "out" the same trace identifier as "vp" (26). The identifier word
    // precedes the name "out" and the type word at the trace section's end.
    let v_start = find_section_start(&file, 4);
    let id_pos = v_start - 4 - 8 - 4;
    assert_eq!(&file[id_pos..id_pos + 4], &25u32.to_be_bytes());
    file[id_pos..id_pos + 4].copy_from_slice(&26u32.to_be_bytes());
    assert_eq!(parse(&file).unwrap_err(), PsfError::DuplicateTraceId { id: 26 });
}

#[test]
fn sweep_name_collision_is_rejected() {
    let mut file = build_file();
    // Rename the sweep variable to "out", colliding with the data signal.
    let s_start = find_section_start(&file, 2);
    let name_pos = s_start + 8 + 4 + 4 + 4;
    assert_eq!(&file[name_pos..name_pos + 4], b"time");
    file[name_pos..name_pos + 4].copy_from_slice(b"out\0");
    file[name_pos - 4..name_pos].copy_from_slice(&3u32.to_be_bytes());
    assert_eq!(parse(&file).unwrap_err(), PsfError::SweepSignalNameCollision);
}

#[test]
fn missing_control_key_is_unsupported_layout() {
    let mut file = build_file();
    // Corrupt the "PSF window size" key: the decoder then sees no windowed
    // layout to follow.
    let h_start = find_section_start(&file, 0);
    let key_pos = h_start + 8 + 4 + 4;
    assert_eq!(&file[key_pos..key_pos + 4], b"PSF ");
    file[key_pos..key_pos + 4].copy_from_slice(b"QSF ");
    assert_eq!(parse(&file).unwrap_err(), PsfError::UnsupportedLayout);
}

#[test]
fn struct_typed_signal_is_unsupported() {
    let mut file = build_file();
    // Retype "rt" (type 11) as a struct: code 16.
    let t_start = find_section_start(&file, 1);
    let code_pos = t_start + 16 + 4 + 4 + 8 + 4;
    file[code_pos..code_pos + 4].copy_from_slice(&16u32.to_be_bytes());
    assert_eq!(
        parse(&file).unwrap_err(),
        PsfError::UnsupportedDataType { got: 16 }
    );
}

#[test]
fn bad_value_block_tag_is_rejected() {
    let mut file = build_file();
    let v_start = find_section_start(&file, 4);
    file[v_start + 8..v_start + 12].copy_from_slice(&21u32.to_be_bytes());
    assert_eq!(
        parse(&file).unwrap_err(),
        PsfError::UnexpectedTag { expected: 20, got: 21, at: v_start + 8 }
    );
}

#[test]
fn toc_reports_section_ranges() {
    let file = build_file();
    let toc = psf::toc::parse_toc(&file).expect("directory should scan");
    assert_eq!(toc.entries.len(), 5);
    // Sections are contiguous: each entry ends where the next starts, and
    // the last runs to the end of the buffer.
    for w in toc.entries.windows(2) {
        assert_eq!(w[0].1.end, w[1].1.start);
    }
    assert_eq!(toc.entries[4].1.end, file.len());
    let header = toc
        .section(psf::toc::SectionKind::Header)
        .expect("header range");
    assert_eq!(header.start, 0);
}

/// The start offset a section kind's directory entry declares.
fn find_section_start(file: &[u8], kind: u32) -> usize {
    let n = file.len();
    let toc = n - 12 - 40;
    for i in 0..5usize {
        let k = u32::from_be_bytes(file[toc + 8 * i..toc + 8 * i + 4].try_into().unwrap());
        if k == kind {
            let s = u32::from_be_bytes(
                file[toc + 8 * i + 4..toc + 8 * i + 8].try_into().unwrap(),
            );
            return s as usize;
        }
    }
    panic!("section kind {kind} not listed");
}

#[test]
fn section_kind_codes_round_trip() {
    for (code, kind) in [
        (0u32, SectionKind::Header),
        (1, SectionKind::Type),
        (2, SectionKind::Sweep),
        (3, SectionKind::Trace),
        (4, SectionKind::Value),
    ] {
        assert_eq!(SectionKind::from_int(code), Ok(kind));
        assert_eq!(kind.code(), code);
    }
    assert_eq!(
        SectionKind::from_int(7),
        Err(PsfError::UnknownSectionKind { got: 7 })
    );
}

#[test]
fn data_type_codes_round_trip() {
    for (code, dt) in [
        (1u32, DataType::Int8),
        (2, DataType::String),
        (5, DataType::Int32),
        (11, DataType::Real),
        (12, DataType::Complex),
        (16, DataType::Struct),
    ] {
        assert_eq!(DataType::from_u32(code), Ok(dt));
        assert_eq!(dt.code(), code);
    }
    assert_eq!(
        DataType::from_u32(3),
        Err(PsfError::UnknownDataType { got: 3 })
    );
}

#[test]
fn group_ids_convert_into_trace_ids() {
    let g = psf::ast::GroupId(24);
    assert_eq!(TraceId::from(g), TraceId(24));
}

#[test]
fn empty_tables_hold_nothing() {
    let toc = psf::toc::Toc::new();
    assert!(toc.section(psf::toc::SectionKind::Header).is_err());
    let toc2 = psf::toc::Toc::with_capacity(4);
    assert_eq!(toc2.entries.len(), 0);
    let ast = psf::ast::PsfAst::new();
    assert_eq!(ast.traces.len(), 0);
    assert!(ast.values.get(TraceId(1)).is_none());
}

#[test]
fn header_integer_lookup_takes_the_last_record() {
    let header = Header {
        values: vec![
            NamedValue {
                name: b"k".to_vec(),
                value: Value::Int(1),
            },
            NamedValue {
                name: b"k".to_vec(),
                value: Value::Int(2),
            },
        ],
    };
    assert_eq!(header.get_int(b"k"), Some(2));
    assert_eq!(header.get_int(b"absent"), None);
}

#[test]
fn total_order_key_orders_doubles() {
    let samples = [-1.5f64, -0.0, 0.0, 2.25, f64::MAX];
    for w in samples.windows(2) {
        assert!(f64_total_key(w[0].to_bits()) <= f64_total_key(w[1].to_bits()));
    }
    assert!(f64_total_key((-1.0f64).to_bits()) < f64_total_key(1.0f64.to_bits()));
}

#[test]
fn cross_format_agrees_for_standalone_traces() {
    // The same simulation as the binary fixture, rendered with one
    // standalone trace per leaf under the leaf's own name: the stream shape
    // the cross-format equivalence law speaks of.
    let file = build_file();
    let ast = parse(&file).expect("fixture should decode");
    let bin = TransientData::from_binary(&ast).expect("transient view");
    let twin = ascii::PsfAst {
        header: Header { values: Vec::new() },
        types: Vec::new(),
        sweeps: vec![ascii::Sweep {
            name: b"time".to_vec(),
            sweep_type: b"sweep".to_vec(),
            kinds: Vec::new(),
        }],
        traces: vec![
            ascii::Trace::Signal {
                name: b"vp".to_vec(),
                units: b"A".to_vec(),
            },
            ascii::Trace::Signal {
                name: b"out".to_vec(),
                units: b"V".to_vec(),
            },
        ],
        values: vec![
            real_record("time", 0.0),
            real_record("vp", 0.25),
            real_record("out", 1.5),
            real_record("time", 1.0),
            real_record("vp", 0.5),
            real_record("out", 2.5),
            real_record("time", 2.0),
            real_record("vp", 0.75),
            real_record("out", 3.5),
        ],
    };
    let asc = TransientData::from_ast(&twin).expect("transient view");
    assert!(bin.eq_exact(&asc));
}

#[test]
fn multi_sample_records_are_inconsistent_not_truncated() {
    // A value record of the human-readable dialect must carry exactly one
    // sample; a record carrying two is rejected, never truncated to its
    // first sample.
    let two_reals = ascii::SignalValues {
        signal: b"vdd".to_vec(),
        values: Values::Real(vec![bits(1.8), bits(1.9)]),
    };
    let traces = vec![ascii::Trace::Signal {
        name: b"vdd".to_vec(),
        units: b"V".to_vec(),
    }];
    let tran = ascii::PsfAst {
        header: Header { values: Vec::new() },
        types: Vec::new(),
        sweeps: Vec::new(),
        traces: traces.clone(),
        values: vec![two_reals.clone()],
    };
    assert_eq!(
        TransientData::from_ast(&tran).unwrap_err(),
        PsfError::InconsistentSampleCount
    );
    assert_eq!(
        DcData::from_ast(&tran).unwrap_err(),
        PsfError::InconsistentSampleCount
    );

    // The AC view rejects a two-pair complex record and a two-sample
    // frequency record alike.
    let ac_sig = ascii::PsfAst {
        header: Header { values: Vec::new() },
        types: Vec::new(),
        sweeps: Vec::new(),
        traces: traces.clone(),
        values: vec![ascii::SignalValues {
            signal: b"vdd".to_vec(),
            values: Values::Complex(vec![(bits(1.0), bits(0.0)), (bits(2.0), bits(0.0))]),
        }],
    };
    assert_eq!(
        AcData::from_ast(&ac_sig).unwrap_err(),
        PsfError::InconsistentSampleCount
    );
    let ac_freq = ascii::PsfAst {
        header: Header { values: Vec::new() },
        types: Vec::new(),
        sweeps: Vec::new(),
        traces,
        values: vec![ascii::SignalValues {
            signal: b"freq".to_vec(),
            values: Values::Real(vec![bits(10.0), bits(20.0)]),
        }],
    };
    assert_eq!(
        AcData::from_ast(&ac_freq).unwrap_err(),
        PsfError::InconsistentSampleCount
    );
}

#[test]
fn empty_records_stay_inconsistent() {
    let tran = ascii::PsfAst {
        header: Header { values: Vec::new() },
        types: Vec::new(),
        sweeps: Vec::new(),
        traces: vec![ascii::Trace::Signal {
            name: b"vdd".to_vec(),
            units: b"V".to_vec(),
        }],
        values: vec![ascii::SignalValues {
            signal: b"vdd".to_vec(),
            values: Values::Real(Vec::new()),
        }],
    };
    assert_eq!(
        TransientData::from_ast(&tran).unwrap_err(),
        PsfError::InconsistentSampleCount
    );
}
