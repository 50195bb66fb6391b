use tracestore::query::Fidelity;

#[test]
fn higher_fidelity_wins() {
    let low = Fidelity::StaticLowFidelity;
    let high = Fidelity::StaticHighFidelity;
    let dynamic = Fidelity::DynamicHighFidelity;
    let every = Fidelity::DynamicEveryInstruction;
    assert_eq!(*low.get_higher(&high), Fidelity::StaticHighFidelity);
    assert_eq!(*high.get_higher(&low), Fidelity::StaticHighFidelity);
    assert_eq!(*dynamic.get_higher(&every), Fidelity::DynamicEveryInstruction);
    assert_eq!(*low.get_higher(&low), Fidelity::StaticLowFidelity);
}
