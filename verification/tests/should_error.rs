use chordparser::parsing::Parser;

fn assert_error(input: &str) {
    let mut parser = Parser::new();
    match parser.parse(input) {
        Ok(chord) => panic!("Expected an error, got {:?}", chord),
        Err(e) => assert!(!e.errors.is_empty()),
    }
}

#[test]
fn should_error_01_fbgtri7() {
    assert_error("FbG△7");
}

#[test]
fn should_error_02_f_over_g_over_c() {
    assert_error("F/G/C");
}

#[test]
fn should_error_03_cbm7add3() {
    assert_error("Cb-7add3");
}

#[test]
fn should_error_04_cmadd3() {
    assert_error("C-add3");
}

#[test]
fn should_error_05_cmin7maj7() {
    assert_error("Cmin7Maj7");
}

#[test]
fn should_error_06_cminb2() {
    assert_error("Cminb2");
}

#[test]
fn should_error_07_cminb() {
    assert_error("Cminb");
}

#[test]
fn should_error_08_cmins() {
    assert_error("Cmin#");
}

#[test]
fn should_error_09_cs9b9() {
    assert_error("C#9b9");
}

#[test]
fn should_error_10_c9s9() {
    assert_error("C9#9");
}

#[test]
fn should_error_11_c11s11() {
    assert_error("C11#11");
}

#[test]
fn should_error_12_cs11s11() {
    assert_error("C#11#11");
}

#[test]
fn should_error_13_db13s13() {
    assert_error("Db13#13");
}

#[test]
fn should_error_14_db1313() {
    assert_error("Db1313");
}

#[test]
fn should_error_15_db1sus3() {
    assert_error("Db1sus3");
}

#[test]
fn should_error_16_dbadds3() {
    assert_error("Dbadd#3");
}

#[test]
fn should_error_17_gomit() {
    assert_error("Gomit");
}

#[test]
fn should_error_18_gomit7() {
    assert_error("Gomit7");
}

#[test]
fn should_error_19_gsus4sus2() {
    assert_error("Gsus4sus2");
}

#[test]
fn should_error_20_c6_over_11() {
    assert_error("C6/11");
}

#[test]
fn should_error_21_c_s11() {
    assert_error("C(#11");
}

#[test]
fn should_error_22_cm9() {
    assert_error("c-9");
}

#[test]
fn should_error_23_c_add9_7() {
    assert_error("C(add9,7)");
}

#[test]
fn should_error_24_c_omit3_7() {
    assert_error("C(omit3,7)");
}

#[test]
fn should_error_25_c13_s5_b5() {
    assert_error("C13(#5,b5)");
}

#[test]
fn should_error_26_csus4s11() {
    assert_error("Csus4#11");
}

#[test]
fn should_error_27_cm9_add13_b5s5() {
    assert_error("C-9(add13)b5#5");
}

#[test]
fn should_error_28_cmb513_add9_b6() {
    assert_error("C-b513(add9,b6)");
}

#[test]
fn should_error_29_cmaj7b9() {
    assert_error("CMaj7b9");
}

#[test]
fn should_error_30_maj7b9() {
    assert_error("maj7b9");
}
