use connect_four::engine::player::Player;

#[test]
fn test_player_opponent() {
    let red_player = Player::Red;
    let white_player = Player::White;
    assert_eq!(red_player.opponent(), Player::White, "Red's opponent should be White");
    assert_eq!(white_player.opponent(), Player::Red, "White's opponent should be Red");
}

#[test]
fn test_player_symbol() {
    let red_player = Player::Red;
    let white_player = Player::White;
    assert_eq!(red_player.symbol(), 'R', "Red's symbol should be 'R'");
    assert_eq!(white_player.symbol(), 'W', "White's symbol should be 'W'");
}
