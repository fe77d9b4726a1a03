//! The addresses that make the host launcher act on a game.
//!
//! An address has the form `steam://<command>/<id>`. The library composes it;
//! opening it is left to the caller.

use vstd::prelude::*;
use vstd::string::*;

verus! {

/// The character that stands for the digit `d`.
pub open spec fn digit_char(d: nat) -> char {
    if d == 0 {
        '0'
    } else if d == 1 {
        '1'
    } else if d == 2 {
        '2'
    } else if d == 3 {
        '3'
    } else if d == 4 {
        '4'
    } else if d == 5 {
        '5'
    } else if d == 6 {
        '6'
    } else if d == 7 {
        '7'
    } else if d == 8 {
        '8'
    } else {
        '9'
    }
}

/// The decimal notation of `n`, without leading zeros.
pub open spec fn decimal(n: nat) -> Seq<char>
    decreases n,
{
    if n < 10 {
        seq![digit_char(n)]
    } else {
        decimal(n / 10).push(digit_char(n % 10))
    }
}

/// The address that makes the launcher follow `path`.
pub open spec fn steam_url(path: Seq<char>) -> Seq<char> {
    "steam://"@ + path
}

/// The address that makes the launcher apply `cmd` to the game `id`.
pub open spec fn game_url(cmd: Seq<char>, id: nat) -> Seq<char> {
    steam_url(cmd + "/"@ + decimal(id))
}

/// The text of one digit.
fn digit_text(d: usize) -> (r: &'static str)
    requires
        d < 10,
    ensures
        r@ == seq![digit_char(d as nat)],
{
    proof {
        reveal_strlit("0");
        reveal_strlit("1");
        reveal_strlit("2");
        reveal_strlit("3");
        reveal_strlit("4");
        reveal_strlit("5");
        reveal_strlit("6");
        reveal_strlit("7");
        reveal_strlit("8");
        reveal_strlit("9");
    }
    let r: &'static str = if d == 0 {
        "0"
    } else if d == 1 {
        "1"
    } else if d == 2 {
        "2"
    } else if d == 3 {
        "3"
    } else if d == 4 {
        "4"
    } else if d == 5 {
        "5"
    } else if d == 6 {
        "6"
    } else if d == 7 {
        "7"
    } else if d == 8 {
        "8"
    } else {
        "9"
    };
    r
}

/// Writes `n` in decimal notation.
pub fn decimal_text(n: usize) -> (r: String)
    ensures
        r@ == decimal(n as nat),
    decreases n,
{
    if n < 10 {
        String::from_str(digit_text(n))
    } else {
        let mut s: String = decimal_text(n / 10);
        s.append(digit_text(n % 10));
        s
    }
}

/// Composes the address that invokes `path`: `install/1` gives
/// `steam://install/1`.
pub fn invoke_steam_url(path: &str) -> (r: String)
    ensures
        r@ == steam_url(path@),
{
    let mut url: String = String::from_str("steam://");
    url.append(path);
    url
}

/// Composes the address that applies `cmd` to the game `game_id`.
pub fn invoke_steam_url_game_cmd(cmd: &str, game_id: usize) -> (r: String)
    ensures
        r@ == game_url(cmd@, game_id as nat),
{
    let mut path: String = String::from_str(cmd);
    path.append("/");
    path.append(decimal_text(game_id).as_str());
    invoke_steam_url(path.as_str())
}

/// The address that initiates a game's installation.
pub fn invoke_steam_install(game_id: usize) -> (r: String)
    ensures
        r@ == game_url("install"@, game_id as nat),
{
    invoke_steam_url_game_cmd("install", game_id)
}

/// The address that initiates a game's removal.
pub fn invoke_steam_uninstall(game_id: usize) -> (r: String)
    ensures
        r@ == game_url("uninstall"@, game_id as nat),
{
    invoke_steam_url_game_cmd("uninstall", game_id)
}

/// The address that initiates the validation of a game's files.
pub fn invoke_steam_validate(game_id: usize) -> (r: String)
    ensures
        r@ == game_url("validate"@, game_id as nat),
{
    invoke_steam_url_game_cmd("validate", game_id)
}

/// The address that runs a game.
pub fn invoke_steam_run(game_id: usize) -> (r: String)
    ensures
        r@ == game_url("run"@, game_id as nat),
{
    invoke_steam_url_game_cmd("run", game_id)
}

} // verus!
