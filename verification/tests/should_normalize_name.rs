use chordparser::parsing::Parser;

fn normalized(input: &str) -> String {
    let mut parser = Parser::new();
    match parser.parse(input) {
        Ok(chord) => chord.normalized,
        Err(e) => {
            let msg: Vec<String> = e.errors.iter().map(|x| x.to_string()).collect();
            panic!("Failed to parse `{}`: {}", input, msg.join(", "));
        }
    }
}

#[test]
fn normalize_01_c5() {
    assert_eq!(normalized("C5"), "C5");
}

#[test]
fn normalize_02_c6ma7() {
    assert_eq!(normalized("C6Ma7"), "C6(addMa7)");
}

#[test]
fn normalize_03_cma7s9omit3() {
    assert_eq!(normalized("CMa7#9omit3"), "CMa7(#9,omit3)");
}

#[test]
fn normalize_04_cma7no3() {
    assert_eq!(normalized("Cma7no3"), "CMa7(omit3)");
}

#[test]
fn normalize_05_cma7sus4() {
    assert_eq!(normalized("Cma7sus4"), "CMa7sus");
}

#[test]
fn normalize_06_cma7sus2() {
    assert_eq!(normalized("Cma7sus2"), "CMa9(omit3)");
}

#[test]
fn normalize_07_cno3() {
    assert_eq!(normalized("Cno3"), "C5");
}

#[test]
fn normalize_08_cma9omit3() {
    assert_eq!(normalized("Cma9omit3"), "CMa9(omit3)");
}

#[test]
fn normalize_09_c() {
    assert_eq!(normalized("C"), "C");
}

#[test]
fn normalize_10_cm7() {
    assert_eq!(normalized("CM7"), "CMa7");
}

#[test]
fn normalize_11_cm13() {
    assert_eq!(normalized("CM13"), "CMa13");
}

#[test]
fn normalize_12_csus() {
    assert_eq!(normalized("Csus"), "Csus");
}

#[test]
fn normalize_13_cma7s5() {
    assert_eq!(normalized("CMa7#5"), "CMa7(#5)");
}

#[test]
fn normalize_14_c_s5() {
    assert_eq!(normalized("C(#5)"), "C+");
}

#[test]
fn normalize_15_cadd9_s5() {
    assert_eq!(normalized("Cadd9(#5)"), "C+(add9)");
}

#[test]
fn normalize_16_c7sus2() {
    assert_eq!(normalized("C7sus2"), "C9(omit3)");
}

#[test]
fn normalize_17_c7susb2() {
    assert_eq!(normalized("C7susb2"), "C7(b9,omit3)");
}

#[test]
fn normalize_18_c7suss4() {
    assert_eq!(normalized("C7sus#4"), "C7(#11,omit3)");
}

#[test]
fn normalize_19_c7sus() {
    assert_eq!(normalized("C7sus"), "C7sus");
}

#[test]
fn normalize_20_c13() {
    assert_eq!(normalized("C13"), "C13");
}

#[test]
fn normalize_21_c9add13() {
    assert_eq!(normalized("C9add13"), "C13");
}

#[test]
fn normalize_22_calt() {
    assert_eq!(normalized("CAlt"), "C7(b9,#9,#11,b13)");
}

#[test]
fn normalize_23_c7s5() {
    assert_eq!(normalized("C7#5"), "C7(#5)");
}

#[test]
fn normalize_24_c7s5_b5() {
    assert_eq!(normalized("C7#5,b5"), "C7(b5,#5)");
}

#[test]
fn normalize_25_cmi13add11() {
    assert_eq!(normalized("Cmi13add11"), "Cmi13");
}

#[test]
fn normalize_26_cmib13() {
    assert_eq!(normalized("Cmib13"), "Cmi(b13)");
}

#[test]
fn normalize_27_cmib13add9() {
    assert_eq!(normalized("Cmib13add9"), "Cmi(b13,add9)");
}

#[test]
fn normalize_28_cmib139() {
    assert_eq!(normalized("Cmib139"), "Cmi9(b13)");
}

#[test]
fn normalize_29_cmma7() {
    assert_eq!(normalized("C-Ma7"), "CmiMa7");
}

#[test]
fn normalize_30_cma7m() {
    assert_eq!(normalized("CMa7-"), "CmiMa7");
}

#[test]
fn normalize_31_cm7add6() {
    assert_eq!(normalized("C-7add6"), "Cmi7(add13)");
}

#[test]
fn normalize_32_cm69() {
    assert_eq!(normalized("C-69"), "Cmi69");
}

#[test]
fn normalize_33_cm11add6() {
    assert_eq!(normalized("C-11add6"), "Cmi13");
}

#[test]
fn normalize_34_cminor9() {
    assert_eq!(normalized("Cminor9"), "Cmi9");
}

#[test]
fn normalize_35_cminor6add11omit5() {
    assert_eq!(normalized("Cminor6add11omit5"), "Cmi6(add11,omit5)");
}

#[test]
fn normalize_36_cmb5() {
    assert_eq!(normalized("C-b5"), "Cdim");
}

#[test]
fn normalize_37_cm7b5() {
    assert_eq!(normalized("C-7b5"), "Cmi7(b5)");
}

#[test]
fn normalize_38_cdim13() {
    assert_eq!(normalized("Cdim13"), "Cmi13(b5)");
}

#[test]
fn normalize_39_cdim7() {
    assert_eq!(normalized("Cdim7"), "Cdim7");
}

#[test]
fn normalize_40_cdim7ma7() {
    assert_eq!(normalized("Cdim7Ma7"), "Cdim7(addMa7)");
}

#[test]
fn normalize_41_cdimma7() {
    assert_eq!(normalized("CdimMa7"), "Cdim(addMa7)");
}

#[test]
fn normalize_42_cdimma9() {
    assert_eq!(normalized("CdimMa9"), "Cdim(addMa7,9)");
}

#[test]
fn normalize_43_c_over_a() {
    assert_eq!(normalized("C/A"), "C/A");
}

#[test]
fn normalize_44_cm6_over_a() {
    assert_eq!(normalized("Cm6/A"), "Cmi6/A");
}

#[test]
fn normalize_45_c_bass() {
    assert_eq!(normalized("C(bass)"), "CBass");
}

#[test]
fn normalize_46_c9() {
    assert_eq!(normalized("C9"), "C9");
}

#[test]
fn normalize_47_c11add13() {
    assert_eq!(normalized("C11add13"), "C13sus");
}

#[test]
fn normalize_48_c11() {
    assert_eq!(normalized("C11"), "C9sus");
}

#[test]
fn normalize_49_c7_add9_11() {
    assert_eq!(normalized("C7(add9,11)"), "C9sus");
}

#[test]
fn normalize_50_cma7_add9_11() {
    assert_eq!(normalized("Cma7(add9,11)"), "CMa9sus");
}

#[test]
fn normalize_51_cm_add9_13() {
    assert_eq!(normalized("C-(add9,13)"), "Cmi(add9,13)");
}

#[test]
fn normalize_52_cm11_add13() {
    assert_eq!(normalized("C-11(add13)"), "Cmi13");
}

#[test]
fn normalize_53_cmb511_add9_b6() {
    assert_eq!(normalized("C-b511(add9,b6)"), "Cmi11(b5,b6)");
}

#[test]
fn normalize_54_cm9add11() {
    assert_eq!(normalized("C-9add11"), "Cmi11");
}

#[test]
fn normalize_55_cbass() {
    assert_eq!(normalized("CBass"), "CBass");
}

#[test]
fn normalize_56_c119b5augm7() {
    assert_eq!(normalized("C119b5+-7"), "Cmi11(b5,#5)");
}

#[test]
fn normalize_57_c4() {
    assert_eq!(normalized("C4"), "Csus");
}

#[test]
fn normalize_58_c94() {
    assert_eq!(normalized("C94"), "C9sus");
}

#[test]
fn normalize_59_c49() {
    assert_eq!(normalized("C49"), "C9sus");
}

#[test]
fn normalize_60_cm7s11add9_add13() {
    assert_eq!(normalized("Cm7#11add9,add13"), "Cmi13(#11)");
}

#[test]
fn normalize_61_cms11_add9_13() {
    assert_eq!(normalized("Cm#11(add9,13)"), "Cmi(#11,add9,13)");
}

#[test]
fn normalize_62_cm7add11add13() {
    assert_eq!(normalized("C-7add11add13"), "Cmi7(add11,13)");
}

#[test]
fn normalize_63_cmadd11add13() {
    assert_eq!(normalized("C-add11add13"), "Cmi(add11,13)");
}

#[test]
fn normalize_64_cm7adds11add9add13() {
    assert_eq!(normalized("C-7add#11add9add13"), "Cmi13(#11)");
}

#[test]
fn normalize_65_caugdim() {
    assert_eq!(normalized("C+dim"), "Cdim(#5)");
}

#[test]
fn normalize_66_caugdim7() {
    assert_eq!(normalized("C+dim7"), "Cdim7(#5)");
}

#[test]
fn normalize_67_cdim9() {
    assert_eq!(normalized("Cdim9"), "Cmi9(b5)");
}

#[test]
fn normalize_68_cdim6() {
    assert_eq!(normalized("Cdim6"), "Cdim7");
}

#[test]
fn normalize_69_cdimadd9() {
    assert_eq!(normalized("Cdimadd9"), "Cdim(add9)");
}

#[test]
fn normalize_70_cdim7ma711b13() {
    assert_eq!(normalized("Cdim7ma711b13"), "Cdim7(b13,addMa7,9,11)");
}

#[test]
fn normalize_71_cdim7omit3() {
    assert_eq!(normalized("Cdim7omit3"), "Cdim7(omit3)");
}

#[test]
fn normalize_72_cdimomit3() {
    assert_eq!(normalized("Cdimomit3"), "Cdim(omit3)");
}

#[test]
fn normalize_73_cdimomit5() {
    assert_eq!(normalized("Cdimomit5"), "Cmi(omit5)");
}

#[test]
fn normalize_74_cdim7omit5() {
    assert_eq!(normalized("Cdim7omit5"), "Cmi6(omit5)");
}

#[test]
fn normalize_75_chdomit5() {
    assert_eq!(normalized("Cøomit5"), "Cmi7(omit5)");
}

#[test]
fn normalize_76_caugomit5() {
    assert_eq!(normalized("C+omit5"), "C(omit5)");
}

#[test]
fn normalize_77_caugb5omit5() {
    assert_eq!(normalized("C+b5omit5"), "C(omit5)");
}

#[test]
fn normalize_78_cbs5b5omit5() {
    assert_eq!(normalized("Cb#5b5omit5"), "Cb(omit5)");
}

#[test]
fn normalize_79_csus2() {
    assert_eq!(normalized("Csus2"), "C(add9,omit3)");
}

#[test]
fn normalize_80_csuss4() {
    assert_eq!(normalized("Csus#4"), "C(#11,omit3)");
}

#[test]
fn normalize_81_cadd9omit3() {
    assert_eq!(normalized("Cadd9omit3"), "C(add9,omit3)");
}

#[test]
fn normalize_82_cadd9suss4() {
    assert_eq!(normalized("Cadd9sus#4"), "C(#11,add9,omit3)");
}

#[test]
fn normalize_83_cmi7sus2() {
    assert_eq!(normalized("Cmi7sus2"), "Cmi9(omit3)");
}

#[test]
fn normalize_84_cmi7suss4() {
    assert_eq!(normalized("Cmi7sus#4"), "Cmi7(#11,omit3)");
}

#[test]
fn normalize_85_cmi7sus4() {
    assert_eq!(normalized("Cmi7sus4"), "Cmi7sus");
}

#[test]
fn normalize_86_cmi7omit3() {
    assert_eq!(normalized("Cmi7omit3"), "Cmi7(omit3)");
}

#[test]
fn normalize_87_csusdim() {
    assert_eq!(normalized("Csusdim"), "Cdimsus");
}

#[test]
fn normalize_88_csusdim7() {
    assert_eq!(normalized("Csusdim7"), "Cdim7sus");
}

#[test]
fn normalize_89_csusdim7omit5() {
    assert_eq!(normalized("Csusdim7omit5"), "Cmi6sus(omit5)");
}

#[test]
fn normalize_90_cdim67() {
    assert_eq!(normalized("Cdim67"), "Cdim7");
}

#[test]
fn normalize_91_csusdim7ma7() {
    assert_eq!(normalized("Csusdim7ma7"), "Cdim7sus(addMa7)");
}

#[test]
fn normalize_92_caugsusma76() {
    assert_eq!(normalized("C+susMa76"), "C6sus(#5,addMa7)");
}
