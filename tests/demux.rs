use deezmux::cache::PairCache;
use deezmux::classify::{classify_pair, decide, distances, Assignment, Barcode, MatchPolicy};
use deezmux::demux::Dispatcher;
use deezmux::index::{pair_from_header, pair_from_sidecars};
use deezmux::palette::{check_palette, ConfigError};
use deezmux::record::{strip, Record, RecordError, RecordFramer};
use deezmux::sheet::{split_at_char, choose_inputs, find_tagged, has_text, parse_sheet, parse_sheet_line, select_mode, IndexMode, InputFiles};
use deezmux::splitter::{output_path, FastqSplitter};

fn row(i1: &str, i2: &str, id: &str) -> Barcode {
    (i1.to_string(), i2.to_string(), id.to_string(), String::new(), String::new())
}

fn palette_a() -> Vec<Barcode> {
    vec![row("AAAAAAAA", "CCCCCCCC", "S1"), row("GGGGGGGG", "TTTTTTTT", "S2")]
}

fn palette_b() -> Vec<Barcode> {
    vec![row("AAAAAAAA", "CCCCCCCC", "S1"), row("AAAAAAAT", "CCCCCCCC", "S2")]
}

const CAP4: MatchPolicy = MatchPolicy { mm1: 4, mm2: 4, cap: 4 };

fn record(header: &str, seq: &str) -> Vec<Vec<u8>> {
    vec![
        format!("{}\n", header).into_bytes(),
        format!("{}\n", seq).into_bytes(),
        b"+\n".to_vec(),
        format!("{}\n", "I".repeat(seq.len())).into_bytes(),
    ]
}

#[test]
fn new_fastq() {
    let not_really_a_fastq = String::from(
        "@MT_E00516:746:HG3WYCCX2:6:1101:2229:1661 1:N:0:NGAGCTAG+NAGCCTGA\nNTG\n+\n#AA\n",
    );
    let mut framer = RecordFramer::new();
    let mut records = Vec::new();
    for line in not_really_a_fastq.as_bytes().split_inclusive(|b| *b == b'\n') {
        if let Some(r) = framer.push_line(line).unwrap() {
            records.push(r);
        }
    }
    assert_eq!(framer.finish(), Ok(()));
    assert_eq!(records.len(), 1);
    assert_eq!(records[0].sequence, b"NTG".to_vec());
    assert_eq!(records[0].quality, b"#AA".to_vec());
    assert_eq!(pair_from_header(&records[0].header), Some(b"NGAGCTAG+NAGCCTGA".to_vec()));
}

#[test]
fn scenario_exact_and_near_matches() {
    let p = palette_a();
    assert_eq!(classify_pair(&p, CAP4, b"AAAAAAAA+CCCCCCCC"), Assignment::Sample(0));
    assert_eq!(classify_pair(&p, CAP4, b"AAAAAAAC+CCCCCCCT"), Assignment::Sample(0));
    assert_eq!(classify_pair(&p, CAP4, b"GGGGGGGG+TTTTTTTT"), Assignment::Sample(1));
}

#[test]
fn scenario_far_from_all_is_unassigned() {
    let p = palette_a();
    assert_eq!(classify_pair(&p, CAP4, b"AAAAAAAA+TTTTTTTT"), Assignment::Unassigned);
}

#[test]
fn scenario_tie_is_ambiguous() {
    let p = palette_b();
    assert_eq!(classify_pair(&p, CAP4, b"AAAAAAAA+CCCCCCCC"), Assignment::Sample(0));
    assert_eq!(classify_pair(&p, CAP4, b"AAAAAAAN+CCCCCCCC"), Assignment::Ambiguous);
}

#[test]
fn scenario_pair_from_header() {
    let k = pair_from_header(b"@M:1:2:3 1:N:0:AAAAAAAA+CCCCCCCC").unwrap();
    assert_eq!(k, b"AAAAAAAA+CCCCCCCC".to_vec());
    assert_eq!(classify_pair(&palette_a(), CAP4, &k), Assignment::Sample(0));
}

#[test]
fn header_without_pair_field() {
    assert_eq!(pair_from_header(b"@M:1:2:3 1:N:0:AAAA"), None);
    assert_eq!(pair_from_header(b"@M:1:2:3 1:N:0:AAAAAAAAXCCCCCCCC"), None);
    assert_eq!(pair_from_header(b""), None);
}

#[test]
fn scenario_pair_from_sidecars() {
    let primary = b"@M:1:2:3 1:N:0:0";
    let i1 = Record { header: b"@M:1:2:3 3:N:0:0".to_vec(), sequence: b"AAAAAAAA".to_vec(), separator: b"+".to_vec(), quality: b"IIIIIIII".to_vec() };
    let i2 = Record { header: b"@M:1:2:3 4:N:0:0".to_vec(), sequence: b"CCCCCCCC".to_vec(), separator: b"+".to_vec(), quality: b"IIIIIIII".to_vec() };
    let k = pair_from_sidecars(primary, &i1, &i2).unwrap();
    assert_eq!(k, b"AAAAAAAA+CCCCCCCC".to_vec());
    let from_header = pair_from_header(b"@M:1:2:3 1:N:0:AAAAAAAA+CCCCCCCC").unwrap();
    assert_eq!(classify_pair(&palette_a(), CAP4, &k), classify_pair(&palette_a(), CAP4, &from_header));
}

#[test]
fn sidecar_out_of_step() {
    let i1 = Record { header: b"@M:1:2:4 3:N:0:0".to_vec(), sequence: b"AAAAAAAA".to_vec(), separator: b"+".to_vec(), quality: b"IIIIIIII".to_vec() };
    let i2 = Record { header: b"@M:1:2:3 4:N:0:0".to_vec(), sequence: b"CCCCCCCC".to_vec(), separator: b"+".to_vec(), quality: b"IIIIIIII".to_vec() };
    assert_eq!(pair_from_sidecars(b"@M:1:2:3 1:N:0:0", &i1, &i2), Err(RecordError::IndexDesync));
}

#[test]
fn scenario_ten_records_counts() {
    let mut d = Dispatcher::new(palette_b(), CAP4).unwrap();
    let mut keys: Vec<Option<Vec<u8>>> = Vec::new();
    for _ in 0..7 {
        keys.push(Some(b"AAAAAAAA+CCCCCCCC".to_vec()));
    }
    keys.insert(2, Some(b"AAAAAAAN+CCCCCCCC".to_vec()));
    keys.insert(5, Some(b"AAAAAAAN+CCCCCCCC".to_vec()));
    keys.push(Some(b"GGGGGGGG+GGGGGGGG".to_vec()));
    assert_eq!(keys.len(), 10);
    let out = d.demultiplex(&keys);
    assert_eq!(out.len(), 4);
    assert_eq!(out[0].len(), 7);
    assert_eq!(out[1].len(), 0);
    assert_eq!(out[2], vec![2, 5]);
    assert_eq!(out[3], vec![9]);
}

#[test]
fn demultiplex_conserves_and_orders() {
    let mut d = Dispatcher::new(palette_a(), CAP4).unwrap();
    let keys = vec![
        Some(b"GGGGGGGG+TTTTTTTT".to_vec()),
        None,
        Some(b"AAAAAAAA+CCCCCCCC".to_vec()),
        Some(b"GGGGGGGG+TTTTTTTT".to_vec()),
        Some(b"AAAAAAAA+TTTTTTTT".to_vec()),
        Some(b"AAAAAAAC+CCCCCCCC".to_vec()),
    ];
    let out = d.demultiplex(&keys);
    let total: usize = out.iter().map(|v| v.len()).sum();
    assert_eq!(total, keys.len());
    for v in out.iter() {
        for w in v.windows(2) {
            assert!(w[0] < w[1]);
        }
    }
    assert_eq!(out[0], vec![2, 5]);
    assert_eq!(out[1], vec![0, 3]);
    assert_eq!(out[2], Vec::<usize>::new());
    assert_eq!(out[3], vec![1, 4]);
}

#[test]
fn repeated_pair_same_output() {
    let mut d = Dispatcher::new(palette_b(), CAP4).unwrap();
    let a = d.route(b"AAAAAAAN+CCCCCCCC");
    let b = d.route(b"AAAAAAAA+CCCCCCCC");
    let c = d.route(b"AAAAAAAN+CCCCCCCC");
    assert_eq!(a, 2);
    assert_eq!(b, 0);
    assert_eq!(a, c);
    assert_eq!(d.ambiguous_slot(), 2);
    assert_eq!(d.unassigned_slot(), 3);
}

#[test]
fn palette_order_does_not_matter() {
    let p = vec![row("AAAAAAAA", "CCCCCCCC", "S1"), row("GGGGGGGG", "TTTTTTTT", "S2"), row("AAAAAAAT", "CCCCCCCC", "S3")];
    let q = vec![row("AAAAAAAT", "CCCCCCCC", "S3"), row("GGGGGGGG", "TTTTTTTT", "S2"), row("AAAAAAAA", "CCCCCCCC", "S1")];
    let keys: [&[u8]; 5] = [b"AAAAAAAA+CCCCCCCC", b"AAAAAAAN+CCCCCCCC", b"GGGGGGGC+TTTTTTTT", b"CCCCCCCC+AAAAAAAA", b"AAAAAAAT+CCCCCCCA"];
    for k in keys.iter() {
        let a = classify_pair(&p, CAP4, k);
        let b = classify_pair(&q, CAP4, k);
        match (a, b) {
            (Assignment::Sample(i), Assignment::Sample(j)) => assert_eq!(p[i].2, q[j].2),
            (x, y) => assert_eq!(x, y),
        }
    }
}

#[test]
fn cap_is_inclusive() {
    let p = vec![row("AAAAAAAA", "CCCCGGGG", "S1")];
    assert_eq!(classify_pair(&p, CAP4, b"AAAAAAAA+CCCCCCCC"), Assignment::Sample(0));
    let q = vec![row("AAAAAAAA", "CCCGGGGG", "S1")];
    assert_eq!(classify_pair(&q, CAP4, b"AAAAAAAA+CCCCCCCC"), Assignment::Unassigned);
}

#[test]
fn decide_exact_values() {
    let pol = MatchPolicy { mm1: 2, mm2: 2, cap: 4 };
    assert_eq!(decide(&vec![], pol), Assignment::Unassigned);
    assert_eq!(decide(&vec![(3, 3), (1, 1), (2, 1)], pol), Assignment::Sample(1));
    assert_eq!(decide(&vec![(1, 1), (2, 0)], pol), Assignment::Ambiguous);
    assert_eq!(decide(&vec![(3, 0), (4, 4)], pol), Assignment::Unassigned);
    assert_eq!(decide(&vec![(2, 2), (4, 4)], pol), Assignment::Sample(0));
    assert_eq!(decide(&vec![(2, 3), (4, 4)], pol), Assignment::Unassigned);
    assert_eq!(decide(&vec![(0, 0)], pol), Assignment::Sample(0));
}

#[test]
fn distances_are_levenshtein() {
    let p = vec![row("ACGT", "ACGT", "S1"), row("AC", "TTTT", "S2")];
    assert_eq!(distances(&p, b"ACGA", b"CGT"), vec![(1, 1), (2, 3)]);
    assert_eq!(distances(&p, b"ACGN", b""), vec![(1, 4), (2, 4)]);
}

#[test]
fn pair_without_separator_is_unassigned() {
    assert_eq!(classify_pair(&palette_a(), CAP4, b"AAAAAAAACCCCCCCC"), Assignment::Unassigned);
}

#[test]
fn palette_faults() {
    assert_eq!(check_palette(&palette_a()), Ok(()));
    let long = "A".repeat(5000);
    assert_eq!(check_palette(&vec![row(&long, "C", "S1")]), Err(ConfigError::BarcodeTooLong));
    assert_eq!(check_palette(&vec![row("A", "C", "AMBIGUOUS")]), Err(ConfigError::ReservedSample));
    assert_eq!(check_palette(&vec![row("A", "C", "UNASSIGNED")]), Err(ConfigError::ReservedSample));
    assert_eq!(check_palette(&vec![row("A", "C", "S1"), row("G", "T", "S1")]), Err(ConfigError::DuplicateSample));
    assert!(Dispatcher::new(vec![row("A", "C", "S1"), row("G", "T", "S1")], CAP4).is_err());
}

#[test]
fn framer_reports_truncated_record() {
    let mut f = RecordFramer::new();
    for l in record("@r1 1:N:0:AAAAAAAA+CCCCCCCC", "ACGT") {
        f.push_line(&l).unwrap();
    }
    assert_eq!(f.finish(), Ok(()));
    assert!(f.push_line(b"@r2\n").unwrap().is_none());
    assert!(f.push_line(b"ACGT\n").unwrap().is_none());
    assert_eq!(f.finish(), Err(RecordError::MalformedRecord(40)));
}

#[test]
fn framer_rejects_non_utf8_header() {
    let mut f = RecordFramer::new();
    for l in record("@r1", "AC") {
        f.push_line(&l).unwrap();
    }
    assert_eq!(f.push_line(&[b'@', 0xff, b'\n']), Err(RecordError::MalformedRecord(12)));
}

#[test]
fn framer_keeps_separator_and_strips_crlf() {
    let mut f = RecordFramer::new();
    assert!(f.push_line(b"@r1\r\n").unwrap().is_none());
    assert!(f.push_line(b"ACGT\r\n").unwrap().is_none());
    assert!(f.push_line(b"+r1 note\n").unwrap().is_none());
    let r = f.push_line(b"IIII").unwrap().unwrap();
    assert_eq!(r.header, b"@r1".to_vec());
    assert_eq!(r.separator, b"+r1 note".to_vec());
    assert_eq!(r.to_bytes(), b"@r1\nACGT\n+r1 note\nIIII\n".to_vec());
    assert_eq!(strip(b"AC\r\n"), b"AC".to_vec());
    assert_eq!(strip(b"AC\n"), b"AC".to_vec());
    assert_eq!(strip(b""), Vec::<u8>::new());
}

#[test]
fn splitter_defaults_and_outputs() {
    let s = FastqSplitter::new();
    let pol = s.policy();
    assert_eq!((pol.mm1, pol.mm2, pol.cap), (2, 2, 4));
    let s = s.with_mm(1, 3).with_cap(5).with_barcodes(palette_a());
    assert_eq!(s.policy(), MatchPolicy { mm1: 1, mm2: 3, cap: 5 });
    assert_eq!(s.output_ids(), vec!["S1".to_string(), "S2".to_string(), "AMBIGUOUS".to_string(), "UNASSIGNED".to_string()]);
    assert_eq!(s.output_paths("out", "r1")[3], "out/UNASSIGNED_r1.fq.gz".to_string());
    assert_eq!(output_path("o", "S1", "r2"), "o/S1_r2.fq.gz".to_string());
}

#[test]
fn match_barcodes_memoizes_each_pair() {
    let s = FastqSplitter::new().with_barcodes(palette_a());
    let headers = vec![
        b"@a 1:N:0:AAAAAAAA+CCCCCCCC".to_vec(),
        b"@b 1:N:0:GGGGGGGG+TTTTTTTT".to_vec(),
        b"@c 1:N:0:AAAAAAAA+CCCCCCCC".to_vec(),
        b"@d short".to_vec(),
        b"@e 1:N:0:AAAAAAAA+TTTTTTTT".to_vec(),
    ];
    let c: PairCache = s.match_barcodes(&headers).unwrap();
    assert_eq!(c.len(), 3);
    assert_eq!(c.lookup(b"AAAAAAAA+CCCCCCCC"), Some(0));
    assert_eq!(c.lookup(b"GGGGGGGG+TTTTTTTT"), Some(1));
    assert_eq!(c.lookup(b"AAAAAAAA+TTTTTTTT"), Some(3));
    assert_eq!(c.lookup(b"CCCCCCCC+CCCCCCCC"), None);
}

#[test]
fn sheet_rows() {
    let r = parse_sheet_line("S1,AAAAAAAA+CCCCCCCC,h1,h2").unwrap();
    assert_eq!(r, row_full("AAAAAAAA", "CCCCCCCC", "S1", "h1", "h2"));
    let r = parse_sheet_line("S2,AC+GT+TT,x,y,extra").unwrap();
    assert_eq!(r, row_full("AC", "GT", "S2", "x", "y"));
    assert_eq!(parse_sheet_line("S1,AAAA,h1,h2"), Err(ConfigError::MalformedSheet));
    assert_eq!(parse_sheet_line("S1,AA+CC,h1"), Err(ConfigError::MalformedSheet));
    let lines = vec!["id,index,r1,r2".to_string(), "S1,A+C,a,b".to_string(), "S2,G+T,c,d".to_string()];
    let p = parse_sheet(&lines).unwrap();
    assert_eq!(p, vec![row_full("A", "C", "S1", "a", "b"), row_full("G", "T", "S2", "c", "d")]);
    let bad = vec!["id,index,r1,r2".to_string(), "S1".to_string()];
    assert_eq!(parse_sheet(&bad), Err(ConfigError::MalformedSheet));
}

fn row_full(i1: &str, i2: &str, id: &str, h1: &str, h2: &str) -> Barcode {
    (i1.to_string(), i2.to_string(), id.to_string(), h1.to_string(), h2.to_string())
}

#[test]
fn input_selection() {
    assert_eq!(select_mode(2), Ok(IndexMode::InHeader));
    assert_eq!(select_mode(4), Ok(IndexMode::Sidecar));
    assert_eq!(select_mode(3), Err(ConfigError::InputCount));
    assert_eq!(select_mode(0), Err(ConfigError::InputCount));
    assert!(has_text("run_R1_001.fq.gz", "_R1"));
    assert!(!has_text("run_R2_001.fq.gz", "_R1"));
    let names = vec!["x_I2.gz".to_string(), "x_R2.gz".to_string(), "x_R1.gz".to_string(), "x_I1.gz".to_string()];
    assert_eq!(find_tagged(&names, "_R1"), Some(2));
    assert_eq!(choose_inputs(&names), Ok(InputFiles { read1: 2, read2: 1, index: Some((3, 0)) }));
    let two = vec!["x_R1.gz".to_string(), "x_R2.gz".to_string()];
    assert_eq!(choose_inputs(&two), Ok(InputFiles { read1: 0, read2: 1, index: None }));
    let missing = vec!["x_R1.gz".to_string(), "x_R3.gz".to_string()];
    assert_eq!(choose_inputs(&missing), Err(ConfigError::MissingInput));
    assert_eq!(choose_inputs(&vec!["a".to_string()]), Err(ConfigError::InputCount));
}

#[test]
fn repeated_pass_identical() {
    let keys = vec![
        Some(b"AAAAAAAN+CCCCCCCC".to_vec()),
        Some(b"AAAAAAAA+CCCCCCCC".to_vec()),
        None,
        Some(b"AAAAAAAT+CCCCCCCC".to_vec()),
    ];
    let mut fresh = Dispatcher::new(palette_b(), CAP4).unwrap();
    let first = fresh.demultiplex(&keys);
    let second = fresh.demultiplex(&keys);
    let mut other = Dispatcher::new(palette_b(), CAP4).unwrap();
    let third = other.demultiplex(&keys);
    assert_eq!(first, second);
    assert_eq!(first, third);
    assert_eq!(first, vec![vec![1], vec![3], vec![0], vec![2]]);
}

#[test]
fn route_record_by_mode() {
    let mut d = Dispatcher::new(palette_a(), CAP4).unwrap();
    assert_eq!(d.route_record(b"@M:1:2:3 1:N:0:GGGGGGGG+TTTTTTTT", None), Ok(1));
    assert_eq!(d.route_record(b"@M:1:2:3 1:N:0:GGGG", None), Ok(3));
    let i1 = Record { header: b"@M:1:2:3 3:N:0:0".to_vec(), sequence: b"AAAAAAAA".to_vec(), separator: b"+".to_vec(), quality: b"IIIIIIII".to_vec() };
    let i2 = Record { header: b"@M:1:2:3 4:N:0:0".to_vec(), sequence: b"CCCCCCCT".to_vec(), separator: b"+".to_vec(), quality: b"IIIIIIII".to_vec() };
    assert_eq!(d.route_record(b"@M:1:2:3 1:N:0:0", Some((&i1, &i2))), Ok(0));
    assert_eq!(d.route_record(b"@M:1:2:9 1:N:0:0", Some((&i1, &i2))), Err(RecordError::IndexDesync));
}

#[test]
fn tie_outside_per_index_bounds_is_unassigned() {
    let pol = MatchPolicy { mm1: 2, mm2: 2, cap: 4 };
    assert_eq!(decide(&vec![(3, 0), (0, 3)], pol), Assignment::Unassigned);
    assert_eq!(decide(&vec![(3, 0), (3, 0), (5, 5)], pol), Assignment::Unassigned);
    assert_eq!(decide(&vec![(2, 1), (3, 0)], pol), Assignment::Ambiguous);
    let s = FastqSplitter::new().with_barcodes(vec![row("AAAAAAAA", "CCCCCCCC", "S1"), row("TTTAAAAA", "CCCCCCCC", "S2")]);
    let mut d = s.dispatcher().unwrap();
    assert_eq!(d.route(b"GGGAAAAA+CCCCCCCC"), 3);
    let s = FastqSplitter::new().with_barcodes(palette_a());
    let mut d = s.dispatcher().unwrap();
    assert_eq!(d.route(b"AAAAACCC+CCCCCCCC"), 3);
}

#[test]
fn cap_boundary_with_default_bounds() {
    let s = FastqSplitter::new().with_barcodes(palette_a());
    let mut d = s.dispatcher().unwrap();
    assert_eq!(d.route(b"AAAAAACC+CCCCCCAA"), 0);
    assert_eq!(d.route(b"AAAAACCC+CCCCCCAA"), 3);
}

#[test]
fn split_pieces() {
    assert_eq!(split_at_char("a,,b,", ','), vec!["a".to_string(), String::new(), "b".to_string(), String::new()]);
    assert_eq!(split_at_char("", ','), vec![String::new()]);
    assert_eq!(split_at_char("AC+GT", '+'), vec!["AC".to_string(), "GT".to_string()]);
}
