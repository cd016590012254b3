#[test]
fn test_padding_strategy() {
    let _sequences = [vec![1, 2, 3], vec![1, 2, 3, 4, 5], vec![1]];
}
