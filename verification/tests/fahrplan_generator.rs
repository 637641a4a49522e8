#[test]
fn fahrplan_generator_test_generate_fahrplan() {

}

#[test]
fn generate_zug_test_generate_zug() {

}
