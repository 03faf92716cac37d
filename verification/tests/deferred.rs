use rust_forth_compiler::LoopExits;

#[test]
fn loop_exits_keep_their_order() {
    let mut exits = LoopExits::new();
    exits.add_exit_point(4);
    exits.add_exit_point(9);
    assert_eq!(exits.loop_exit_locations, vec![4, 9]);
}
