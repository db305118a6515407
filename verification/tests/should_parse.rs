use chordparser::chord::note::{Note, NoteLiteral, NoteModifier};
use chordparser::parsing::Parser;

fn check_notes(input: &str, expected: &[&str]) {
    let mut parser = Parser::new();
    let notes = [
        Note::new(NoteLiteral::C, Some(NoteModifier(-1))),
        Note::new(NoteLiteral::C, Some(NoteModifier(1))),
        Note::new(NoteLiteral::D, Some(NoteModifier(-1))),
        Note::new(NoteLiteral::D, None),
        Note::new(NoteLiteral::D, Some(NoteModifier(1))),
        Note::new(NoteLiteral::E, Some(NoteModifier(-1))),
        Note::new(NoteLiteral::E, None),
        Note::new(NoteLiteral::E, Some(NoteModifier(1))),
        Note::new(NoteLiteral::F, Some(NoteModifier(-1))),
        Note::new(NoteLiteral::F, None),
        Note::new(NoteLiteral::F, Some(NoteModifier(1))),
        Note::new(NoteLiteral::G, Some(NoteModifier(-1))),
        Note::new(NoteLiteral::G, None),
        Note::new(NoteLiteral::G, Some(NoteModifier(1))),
        Note::new(NoteLiteral::A, Some(NoteModifier(-1))),
        Note::new(NoteLiteral::A, None),
        Note::new(NoteLiteral::A, Some(NoteModifier(-1))),
        Note::new(NoteLiteral::B, None),
        Note::new(NoteLiteral::B, Some(NoteModifier(-1))),
        Note::new(NoteLiteral::A, Some(NoteModifier(1))),
        Note::new(NoteLiteral::B, Some(NoteModifier(1))),
    ];
    let chord = match parser.parse(input) {
        Ok(chord) => chord,
        Err(e) => {
            let msg: Vec<String> = e.errors.iter().map(|x| x.to_string()).collect();
            panic!("{}", msg.join(" "));
        }
    };
    let literals = chord.note_literals();
    assert_eq!(literals, expected);
    for n in notes.iter() {
        let t = chord.transpose(n);
        assert_eq!(chord.intervals, t.intervals, "Error parsing chord {}", chord.origin);
        match parser.parse(&t.origin) {
            Ok(p) => assert_eq!(t.intervals, p.intervals, "Error transposing chord {} into {}", chord.origin, n.to_string()),
            Err(e) => {
                let msg: Vec<String> = e.errors.iter().map(|x| x.to_string()).collect();
                panic!("{}: {}", t.origin, msg.join(" "));
            }
        }
    }
}

#[test]
fn parse_notes_001_c5() {
    check_notes("C5", &["C", "G"]);
}

#[test]
fn parse_notes_002_c_omit3() {
    check_notes("C(omit3)", &["C", "G"]);
}

#[test]
fn parse_notes_003_csus() {
    check_notes("Csus", &["C", "F", "G"]);
}

#[test]
fn parse_notes_004_c_b5() {
    check_notes("C(b5)", &["C", "E", "Gb"]);
}

#[test]
fn parse_notes_005_c() {
    check_notes("C", &["C", "E", "G"]);
}

#[test]
fn parse_notes_006_ctri() {
    check_notes("C^", &["C", "E", "G", "B"]);
}

#[test]
fn parse_notes_007_ctri() {
    check_notes("C△", &["C", "E", "G", "B"]);
}

#[test]
fn parse_notes_008_cmajor7() {
    check_notes("Cmajor7", &["C", "E", "G", "B"]);
}

#[test]
fn parse_notes_009_ctri7() {
    check_notes("C△7", &["C", "E", "G", "B"]);
}

#[test]
fn parse_notes_010_css5() {
    check_notes("C##5", &["C#", "E#", "G𝄪"]);
}

#[test]
fn parse_notes_011_caug() {
    check_notes("C+", &["C", "E", "G#"]);
}

#[test]
fn parse_notes_012_caugm5() {
    check_notes("C+-5", &["C", "E", "Gb", "G#"]);
}

#[test]
fn parse_notes_013_c_m5s5() {
    check_notes("C(-5#5)", &["C", "E", "Gb", "G#"]);
}

#[test]
fn parse_notes_014_caugs11() {
    check_notes("C+#11", &["C", "E", "G#", "F#"]);
}

#[test]
fn parse_notes_015_caugmaj7() {
    check_notes("C+Maj7", &["C", "E", "G#", "B"]);
}

#[test]
fn parse_notes_016_caugmaj76omit5() {
    check_notes("C+Maj76omit5", &["C", "E", "A", "B"]);
}

#[test]
fn parse_notes_017_caugmaj9() {
    check_notes("C+Maj9", &["C", "E", "G#", "B", "D"]);
}

#[test]
fn parse_notes_018_c6_b5() {
    check_notes("C6(b5)", &["C", "E", "Gb", "A"]);
}

#[test]
fn parse_notes_019_c6() {
    check_notes("C6", &["C", "E", "G", "A"]);
}

#[test]
fn parse_notes_020_c6_s5() {
    check_notes("C6(#5)", &["C", "E", "G#", "A"]);
}

#[test]
fn parse_notes_021_c69() {
    check_notes("C69", &["C", "E", "G", "A", "D"]);
}

#[test]
fn parse_notes_022_c69_s11() {
    check_notes("C69(#11)", &["C", "E", "G", "A", "D", "F#"]);
}

#[test]
fn parse_notes_023_cma7_b5() {
    check_notes("Cma7(b5)", &["C", "E", "Gb", "B"]);
}

#[test]
fn parse_notes_024_cmaj713() {
    check_notes("CMAJ713", &["C", "E", "G", "B", "D", "A"]);
}

#[test]
fn parse_notes_025_cm7() {
    check_notes("CM7", &["C", "E", "G", "B"]);
}

#[test]
fn parse_notes_026_cma7() {
    check_notes("Cma7", &["C", "E", "G", "B"]);
}

#[test]
fn parse_notes_027_cma7_s5() {
    check_notes("Cma7(#5)", &["C", "E", "G#", "B"]);
}

#[test]
fn parse_notes_028_cadd9_omit3() {
    check_notes("Cadd9(omit3)", &["C", "G", "D"]);
}

#[test]
fn parse_notes_029_cadd9_omit3_5() {
    check_notes("Cadd9(omit3,5)", &["C", "D"]);
}

#[test]
fn parse_notes_030_cadd9_no3() {
    check_notes("Cadd9(no3)", &["C", "G", "D"]);
}

#[test]
fn parse_notes_031_cadd9() {
    check_notes("Cadd9", &["C", "E", "G", "D"]);
}

#[test]
fn parse_notes_032_c_add9() {
    check_notes("C(add9)", &["C", "E", "G", "D"]);
}

#[test]
fn parse_notes_033_cma9() {
    check_notes("Cma9", &["C", "E", "G", "B", "D"]);
}

#[test]
fn parse_notes_034_cma9_no3() {
    check_notes("Cma9(no3)", &["C", "G", "B", "D"]);
}

#[test]
fn parse_notes_035_cma9_no3_5() {
    check_notes("Cma9(no3,5)", &["C", "B", "D"]);
}

#[test]
fn parse_notes_036_cma9no3() {
    check_notes("Cma9no3", &["C", "G", "B", "D"]);
}

#[test]
fn parse_notes_037_cma9_s11() {
    check_notes("Cma9(#11)", &["C", "E", "G", "B", "D", "F#"]);
}

#[test]
fn parse_notes_038_cma9_omit3() {
    check_notes("Cma9(omit3)", &["C", "G", "B", "D"]);
}

#[test]
fn parse_notes_039_cma13() {
    check_notes("Cma13", &["C", "E", "G", "B", "D", "A"]);
}

#[test]
fn parse_notes_040_cma13_s11() {
    check_notes("Cma13(#11)", &["C", "E", "G", "B", "D", "F#", "A"]);
}

#[test]
fn parse_notes_041_co() {
    check_notes("C°", &["C", "Eb", "Gb"]);
}

#[test]
fn parse_notes_042_cmi() {
    check_notes("Cmi", &["C", "Eb", "G"]);
}

#[test]
fn parse_notes_043_cmib6() {
    check_notes("Cmib6", &["C", "Eb", "G", "Ab"]);
}

#[test]
fn parse_notes_044_cmi_add9() {
    check_notes("Cmi add9", &["C", "Eb", "G", "D"]);
}

#[test]
fn parse_notes_045_cmi_add9() {
    check_notes("Cmi(add9)", &["C", "Eb", "G", "D"]);
}

#[test]
fn parse_notes_046_cmiadd9() {
    check_notes("Cmiadd9", &["C", "Eb", "G", "D"]);
}

#[test]
fn parse_notes_047_cmi6() {
    check_notes("Cmi6", &["C", "Eb", "G", "A"]);
}

#[test]
fn parse_notes_048_cmi69() {
    check_notes("Cmi69", &["C", "Eb", "G", "A", "D"]);
}

#[test]
fn parse_notes_049_cmi6_over_9() {
    check_notes("Cmi6/9", &["C", "Eb", "G", "A", "D"]);
}

#[test]
fn parse_notes_050_cm6() {
    check_notes("C-6", &["C", "Eb", "G", "A"]);
}

#[test]
fn parse_notes_051_cmm5() {
    check_notes("C--5", &["C", "Eb", "Gb"]);
}

#[test]
fn parse_notes_052_cmm56_over_9() {
    check_notes("C--56/9", &["C", "Eb", "Gb", "A", "D"]);
}

#[test]
fn parse_notes_053_cm69() {
    check_notes("C-69", &["C", "Eb", "G", "A", "D"]);
}

#[test]
fn parse_notes_054_cminor69() {
    check_notes("Cminor69", &["C", "Eb", "G", "A", "D"]);
}

#[test]
fn parse_notes_055_cminor611() {
    check_notes("Cminor611", &["C", "Eb", "G", "A", "D", "F"]);
}

#[test]
fn parse_notes_056_cminor613() {
    check_notes("Cminor613", &["C", "Eb", "G", "A", "D", "F", "A"]);
}

#[test]
fn parse_notes_057_cm6_over_9() {
    check_notes("C-6/9", &["C", "Eb", "G", "A", "D"]);
}

#[test]
fn parse_notes_058_cmi69add11() {
    check_notes("Cmi69add11", &["C", "Eb", "G", "A", "D", "F"]);
}

#[test]
fn parse_notes_059_cmi_s5() {
    check_notes("Cmi(#5)", &["C", "Eb", "G#"]);
}

#[test]
fn parse_notes_060_cmi7() {
    check_notes("Cmi7", &["C", "Eb", "G", "Bb"]);
}

#[test]
fn parse_notes_061_cmi7_b5() {
    check_notes("Cmi7(b5)", &["C", "Eb", "Gb", "Bb"]);
}

#[test]
fn parse_notes_062_cmi7_s5() {
    check_notes("Cmi7(#5)", &["C", "Eb", "G#", "Bb"]);
}

#[test]
fn parse_notes_063_cmi7_b5_add11() {
    check_notes("Cmi7(b5,add11)", &["C", "Eb", "Gb", "Bb", "F"]);
}

#[test]
fn parse_notes_064_cmi7_add11() {
    check_notes("Cmi7(add11)", &["C", "Eb", "G", "Bb", "F"]);
}

#[test]
fn parse_notes_065_cmi9() {
    check_notes("Cmi9", &["C", "Eb", "G", "Bb", "D"]);
}

#[test]
fn parse_notes_066_cmi9_b5() {
    check_notes("Cmi9(b5)", &["C", "Eb", "Gb", "Bb", "D"]);
}

#[test]
fn parse_notes_067_cmi11() {
    check_notes("Cmi11", &["C", "Eb", "G", "Bb", "D", "F"]);
}

#[test]
fn parse_notes_068_cmi11_b5_no3() {
    check_notes("Cmi11(b5,no3)", &["C", "Gb", "Bb", "D", "F"]);
}

#[test]
fn parse_notes_069_cmi7_b5_s5() {
    check_notes("Cmi7(b5,#5)", &["C", "Eb", "Gb", "G#", "Bb"]);
}

#[test]
fn parse_notes_070_cmi11_b5_s5() {
    check_notes("Cmi11(b5,#5)", &["C", "Eb", "Gb", "G#", "Bb", "D", "F"]);
}

#[test]
fn parse_notes_071_cmi11_b5_b13() {
    check_notes("Cmi11(b5,b13)", &["C", "Eb", "Gb", "Bb", "D", "F", "Ab"]);
}

#[test]
fn parse_notes_072_cmi13() {
    check_notes("Cmi13", &["C", "Eb", "G", "Bb", "D", "F", "A"]);
}

#[test]
fn parse_notes_073_cminomit5maj7() {
    check_notes("Cminomit5maj7", &["C", "Eb", "B"]);
}

#[test]
fn parse_notes_074_cminomit5() {
    check_notes("Cminomit5", &["C", "Eb"]);
}

#[test]
fn parse_notes_075_csminomit5maj7add9s11() {
    check_notes("C#minomit5maj7add9#11", &["C#", "E", "B#", "D#", "F𝄪"]);
}

#[test]
fn parse_notes_076_csus4_b5s5() {
    check_notes("Csus4(b5#5)", &["C", "F", "Gb", "G#"]);
}

#[test]
fn parse_notes_077_c7() {
    check_notes("C7", &["C", "E", "G", "Bb"]);
}

#[test]
fn parse_notes_078_cmaj() {
    check_notes("CMaj", &["C", "E", "G"]);
}

#[test]
fn parse_notes_079_cadd2() {
    check_notes("Cadd2", &["C", "D", "E", "G"]);
}

#[test]
fn parse_notes_080_cmaj13s9s11s5() {
    check_notes("CMaj13#9#11#5", &["C", "E", "G#", "B", "D#", "F#", "A"]);
}

#[test]
fn parse_notes_081_cmaj713s9s11s5() {
    check_notes("CMaj713#9#11#5", &["C", "E", "G#", "B", "D#", "F#", "A"]);
}

#[test]
fn parse_notes_082_cmaj713s9s11() {
    check_notes("CMaj713#9#11", &["C", "E", "G", "B", "D#", "F#", "A"]);
}

#[test]
fn parse_notes_083_cm713s9s11s5() {
    check_notes("CM713#9#11#5", &["C", "E", "G#", "B", "D#", "F#", "A"]);
}

#[test]
fn parse_notes_084_ctri13s9s11s5() {
    check_notes("C△13#9#11#5", &["C", "E", "G#", "B", "D#", "F#", "A"]);
}

#[test]
fn parse_notes_085_calt() {
    check_notes("Calt", &["C", "E", "Bb", "Db", "D#", "F#", "Ab"]);
}

#[test]
fn parse_notes_086_c7_b5_s5_b9() {
    check_notes("C7(b5,#5,b9)", &["C", "E", "Gb", "G#", "Bb", "Db"]);
}

#[test]
fn parse_notes_087_c7sus() {
    check_notes("C7sus", &["C", "F", "G", "Bb"]);
}

#[test]
fn parse_notes_088_c7sus2() {
    check_notes("C7sus2", &["C", "G", "Bb", "D"]);
}

#[test]
fn parse_notes_089_c7_b5_s5_s9() {
    check_notes("C7(b5,#5,#9)", &["C", "E", "Gb", "G#", "Bb", "D#"]);
}

#[test]
fn parse_notes_090_c7_b5_s5_b9_s9() {
    check_notes("C7(b5,#5,b9,#9)", &["C", "E", "Gb", "G#", "Bb", "Db", "D#"]);
}

#[test]
fn parse_notes_091_c7b5s5b9s9b13() {
    check_notes("C7b5#5b9#9b13", &["C", "E", "Gb", "G#", "Bb", "Db", "D#", "Ab"]);
}

#[test]
fn parse_notes_092_c7_b13() {
    check_notes("C7(b13)", &["C", "E", "Bb", "Ab"]);
}

#[test]
fn parse_notes_093_c9() {
    check_notes("C9", &["C", "E", "G", "Bb", "D"]);
}

#[test]
fn parse_notes_094_c9_13() {
    check_notes("C9(13)", &["C", "E", "G", "Bb", "D", "A"]);
}

#[test]
fn parse_notes_095_c9_add13() {
    check_notes("C9(add13)", &["C", "E", "G", "Bb", "D", "A"]);
}

#[test]
fn parse_notes_096_c9sus() {
    check_notes("C9sus", &["C", "F", "G", "Bb", "D"]);
}

#[test]
fn parse_notes_097_c9_b5() {
    check_notes("C9(b5)", &["C", "E", "Gb", "Bb", "D"]);
}

#[test]
fn parse_notes_098_c9_b5_s5() {
    check_notes("C9(b5,#5)", &["C", "E", "Gb", "G#", "Bb", "D"]);
}

#[test]
fn parse_notes_099_c9_b5_b13() {
    check_notes("C9(b5,b13)", &["C", "E", "Gb", "Bb", "D", "Ab"]);
}

#[test]
fn parse_notes_100_c9_s5_s11() {
    check_notes("C9(#5,#11)", &["C", "E", "G#", "Bb", "D", "F#"]);
}

#[test]
fn parse_notes_101_c9s11() {
    check_notes("C9#11", &["C", "E", "G", "Bb", "D", "F#"]);
}

#[test]
fn parse_notes_102_c11() {
    check_notes("C11", &["C", "G", "Bb", "D", "F"]);
}

#[test]
fn parse_notes_103_c11_b9() {
    check_notes("C11(b9)", &["C", "G", "Bb", "Db", "F"]);
}

#[test]
fn parse_notes_104_c13() {
    check_notes("C13", &["C", "E", "G", "Bb", "D", "A"]);
}

#[test]
fn parse_notes_105_c_b13() {
    check_notes("C(b13)", &["C", "E", "Ab"]);
}

#[test]
fn parse_notes_106_c7b13() {
    check_notes("C7b13", &["C", "E", "Bb", "Ab"]);
}

#[test]
fn parse_notes_107_c13sus() {
    check_notes("C13sus", &["C", "F", "G", "Bb", "D", "A"]);
}

#[test]
fn parse_notes_108_c13_b5() {
    check_notes("C13(b5)", &["C", "E", "Gb", "Bb", "D", "A"]);
}

#[test]
fn parse_notes_109_c13_b5_b9() {
    check_notes("C13(b5,b9)", &["C", "E", "Gb", "Bb", "Db", "A"]);
}

#[test]
fn parse_notes_110_c13_b5_s9() {
    check_notes("C13(b5,#9)", &["C", "E", "Gb", "Bb", "D#", "A"]);
}

#[test]
fn parse_notes_111_c13_b5_b9_s9() {
    check_notes("C13(b5,b9,#9)", &["C", "E", "Gb", "Bb", "Db", "D#", "A"]);
}

#[test]
fn parse_notes_112_c13b9() {
    check_notes("C13b9", &["C", "E", "G", "Bb", "Db", "A"]);
}

#[test]
fn parse_notes_113_c13_b9_s9() {
    check_notes("C13 b9 #9", &["C", "E", "G", "Bb", "Db", "D#", "A"]);
}

#[test]
fn parse_notes_114_c13_b9_s11() {
    check_notes("C13 b9 #11", &["C", "E", "G", "Bb", "Db", "F#", "A"]);
}

#[test]
fn parse_notes_115_c13_b9_s9_s11() {
    check_notes("C13(b9,#9,#11)", &["C", "E", "G", "Bb", "Db", "D#", "F#", "A"]);
}

#[test]
fn parse_notes_116_c13_s9() {
    check_notes("C13(#9)", &["C", "E", "G", "Bb", "D#", "A"]);
}

#[test]
fn parse_notes_117_c13_s9s11() {
    check_notes("C13(#9#11)", &["C", "E", "G", "Bb", "D#", "F#", "A"]);
}

#[test]
fn parse_notes_118_c13_s11() {
    check_notes("C13(#11)", &["C", "E", "G", "Bb", "D", "F#", "A"]);
}

#[test]
fn parse_notes_119_cdim() {
    check_notes("Cdim", &["C", "Eb", "Gb"]);
}

#[test]
fn parse_notes_120_cdim7() {
    check_notes("Cdim7", &["C", "Eb", "Gb", "B𝄫"]);
}

#[test]
fn parse_notes_121_cdim7maj7b13_over_ab() {
    check_notes("Cdim7Maj7b13/Ab", &["C", "Eb", "Gb", "B𝄫", "B", "Ab"]);
}

#[test]
fn parse_notes_122_cdim7_add_ma7() {
    check_notes("Cdim7(add ma7)", &["C", "Eb", "Gb", "B𝄫", "B"]);
}

#[test]
fn parse_notes_123_cdim7_add_maj7_9() {
    check_notes("Cdim7(add Maj7, 9)", &["C", "Eb", "Gb", "B𝄫", "B", "D"]);
}

#[test]
fn parse_notes_124_cdim7_add_maj7_9_11() {
    check_notes("Cdim7(add Maj7, 9, 11)", &["C", "Eb", "Gb", "B𝄫", "B", "D", "F"]);
}

#[test]
fn parse_notes_125_cdim7addm711b13() {
    check_notes("Cdim7addM711b13", &["C", "Eb", "Gb", "B𝄫", "B", "D", "F", "Ab"]);
}

#[test]
fn parse_notes_126_cdim7ma11() {
    check_notes("Cdim7ma11", &["C", "Eb", "Gb", "B𝄫", "B", "D", "F"]);
}

#[test]
fn parse_notes_127_cdim7add_ma7_b13() {
    check_notes("Cdim7add ma7 b13", &["C", "Eb", "Gb", "B𝄫", "B", "Ab"]);
}

#[test]
fn parse_notes_128_cdim7addmaj7_b13() {
    check_notes("Cdim7addMaj7 b13", &["C", "Eb", "Gb", "B𝄫", "B", "Ab"]);
}

#[test]
fn parse_notes_129_cdim7add9() {
    check_notes("Cdim7add9", &["C", "Eb", "Gb", "B𝄫", "D"]);
}

#[test]
fn parse_notes_130_cdim7add911() {
    check_notes("Cdim7add911", &["C", "Eb", "Gb", "B𝄫", "D", "F"]);
}

#[test]
fn parse_notes_131_chdadd911() {
    check_notes("Cøadd911", &["C", "Eb", "Gb", "Bb", "D", "F"]);
}

#[test]
fn parse_notes_132_chd11() {
    check_notes("Cø11", &["C", "Eb", "Gb", "Bb", "D", "F"]);
}

#[test]
fn parse_notes_133_chd13() {
    check_notes("Cø13", &["C", "Eb", "Gb", "Bb", "D", "F", "A"]);
}

#[test]
fn parse_notes_134_cdim7add911_b13() {
    check_notes("Cdim7add911 b13", &["C", "Eb", "Gb", "B𝄫", "D", "F", "Ab"]);
}

#[test]
fn parse_notes_135_cdim7_add9_13() {
    check_notes("Cdim7(add9,13)", &["C", "Eb", "Gb", "B𝄫", "D", "A"]);
}

#[test]
fn parse_notes_136_cdim7_add9_add13() {
    check_notes("Cdim7(add9,add13)", &["C", "Eb", "Gb", "B𝄫", "D", "A"]);
}

#[test]
fn parse_notes_137_cdim7_add9_b13() {
    check_notes("Cdim7(add9,b13)", &["C", "Eb", "Gb", "B𝄫", "D", "Ab"]);
}

#[test]
fn parse_notes_138_cdim7_add11_13() {
    check_notes("Cdim7(add11,13)", &["C", "Eb", "Gb", "B𝄫", "F", "A"]);
}

#[test]
fn parse_notes_139_cdim7_add13() {
    check_notes("Cdim7(add13)", &["C", "Eb", "Gb", "B𝄫", "A"]);
}

#[test]
fn parse_notes_140_cm7_add6() {
    check_notes("C-7(add6)", &["C", "Eb", "G", "A", "Bb"]);
}

#[test]
fn parse_notes_141_cminor7_add6() {
    check_notes("Cminor7(add6)", &["C", "Eb", "G", "A", "Bb"]);
}

#[test]
fn parse_notes_142_csus4_add9_3() {
    check_notes("Csus4(add9,3)", &["C", "E", "F", "G", "D"]);
}

#[test]
fn parse_notes_143_c_add2_13() {
    check_notes("C(add2,13)", &["C", "D", "E", "G", "A"]);
}

#[test]
fn parse_notes_144_c_add2_13() {
    check_notes("C(add2 13)", &["C", "D", "E", "G", "Bb", "D", "A"]);
}

#[test]
fn parse_notes_145_c7_omit5_3_add9_13() {
    check_notes("C7(omit5,3 add9,13)", &["C", "Bb", "D", "A"]);
}

#[test]
fn parse_notes_146_c7omit5_9() {
    check_notes("C7omit5,9", &["C", "E", "Bb", "D"]);
}

#[test]
fn parse_notes_147_cdimmaj7() {
    check_notes("Cdimmaj7", &["C", "Eb", "Gb", "B"]);
}

#[test]
fn parse_notes_148_cbass() {
    check_notes("CBass", &["C"]);
}

#[test]
fn parse_notes_149_c7_over_9() {
    check_notes("C7/9", &["C", "E", "G", "Bb", "D"]);
}

#[test]
fn parse_notes_150_cdim7_over_9() {
    check_notes("Cdim7/9", &["C", "Eb", "Gb", "B𝄫", "D"]);
}

#[test]
fn parse_notes_151_c_add_9_omit_3() {
    check_notes("C(add 9,omit 3)", &["C", "G", "D"]);
}

#[test]
fn parse_notes_152_fb_add_9_add_b13() {
    check_notes("Fb(add 9,add b13)", &["Fb", "Ab", "Gb", "D𝄫"]);
}

#[test]
fn parse_notes_153_ebaug_add_b9_add_s9() {
    check_notes("Eb+(add b9,add #9)", &["Eb", "G", "B", "Fb", "F#"]);
}

#[test]
fn parse_notes_154_co7() {
    check_notes("C°7", &["C", "Eb", "Gb", "B𝄫"]);
}

#[test]
fn parse_notes_155_co7_add_ma7() {
    check_notes("C°7(add MA7)", &["C", "Eb", "Gb", "B𝄫", "B"]);
}

#[test]
fn parse_notes_156_csus_b9() {
    check_notes("Csus(b9)", &["C", "F", "G", "Db"]);
}

#[test]
fn parse_notes_157_csus_b5() {
    check_notes("Csus(b5)", &["C", "F", "Gb"]);
}

#[test]
fn parse_notes_158_cma() {
    check_notes("CMa", &["C", "E", "G"]);
}

#[test]
fn parse_notes_159_ftri7() {
    check_notes("F△7", &["F", "A", "C", "E"]);
}

#[test]
fn parse_notes_160_c4() {
    check_notes("C4", &["C", "F", "G"]);
}

#[test]
fn parse_notes_161_c49() {
    check_notes("C49", &["C", "F", "G", "Bb", "D"]);
}

#[test]
fn parse_notes_162_cm5() {
    check_notes("C-5", &["C", "E", "Gb"]);
}

#[test]
fn parse_notes_163_cdim7maj711b13() {
    check_notes("Cdim7maj711b13", &["C", "Eb", "Gb", "B𝄫", "B", "D", "F", "Ab"]);
}

#[test]
fn parse_notes_164_cdim7omit3() {
    check_notes("Cdim7omit3", &["C", "Gb", "B𝄫"]);
}

#[test]
fn parse_notes_165_cdimomit3() {
    check_notes("Cdimomit3", &["C", "Gb"]);
}

#[test]
fn parse_notes_166_cdimomit5() {
    check_notes("Cdimomit5", &["C", "Eb"]);
}

#[test]
fn parse_notes_167_cdim7omit5() {
    check_notes("Cdim7omit5", &["C", "Eb", "B𝄫"]);
}

#[test]
fn parse_notes_168_chdomit5() {
    check_notes("Cøomit5", &["C", "Eb", "Bb"]);
}

#[test]
fn parse_notes_169_caugomit5() {
    check_notes("C+omit5", &["C", "E"]);
}

#[test]
fn parse_notes_170_caugb5omit5() {
    check_notes("C+b5omit5", &["C", "E"]);
}

#[test]
fn parse_notes_171_c_s5b5omit5() {
    check_notes("C(#5b5omit5)", &["C", "E"]);
}

#[test]
fn parse_notes_172_csus2() {
    check_notes("Csus2", &["C", "G", "D"]);
}

#[test]
fn parse_notes_173_csuss4() {
    check_notes("Csus#4", &["C", "G", "F#"]);
}

#[test]
fn parse_notes_174_cadd9omit3() {
    check_notes("Cadd9omit3", &["C", "G", "D"]);
}

#[test]
fn parse_notes_175_cmin7sus2() {
    check_notes("Cmin7sus2", &["C", "G", "Bb", "D"]);
}

#[test]
fn parse_notes_176_cadd9suss4() {
    check_notes("Cadd9sus#4", &["C", "G", "D", "F#"]);
}

#[test]
fn parse_notes_177_cmin7suss4() {
    check_notes("Cmin7sus#4", &["C", "G", "Bb", "F#"]);
}

#[test]
fn parse_notes_178_cmin7sus4() {
    check_notes("Cmin7sus4", &["C", "F", "G", "Bb"]);
}

#[test]
fn parse_notes_179_cdimsus4() {
    check_notes("Cdimsus4", &["C", "F", "Gb"]);
}

#[test]
fn parse_notes_180_cdim7sus4() {
    check_notes("Cdim7sus4", &["C", "F", "Gb", "B𝄫"]);
}

#[test]
fn parse_notes_181_csusdim7maj7() {
    check_notes("Csusdim7maj7", &["C", "F", "Gb", "B𝄫", "B"]);
}

#[test]
fn parse_notes_182_caugsusmaj76() {
    check_notes(" C+susMaj76", &["C", "F", "G#", "A", "B"]);
}
