//! Rendering of players into the wire fragments the live viewers get:
//! a whole-roster table after a rename, a single row after a visit or
//! a clear. The contracts pin the output down to the character.
use vstd::prelude::*;
use vstd::string::StringExecFns;

use crate::room::PlayerData;
use crate::room::PlayerView;

verus! {

pub open spec fn digit_char(d: u64) -> char {
    if d == 0 {
        '0'
    } else if d == 1 {
        '1'
    } else if d == 2 {
        '2'
    } else if d == 3 {
        '3'
    } else if d == 4 {
        '4'
    } else if d == 5 {
        '5'
    } else if d == 6 {
        '6'
    } else if d == 7 {
        '7'
    } else if d == 8 {
        '8'
    } else {
        '9'
    }
}

/// The decimal rendering of `n`, most significant digit first.
pub open spec fn dec_str(n: u64) -> Seq<char>
    decreases n,
{
    if n < 10 {
        seq![digit_char(n)]
    } else {
        dec_str(n / 10).push(digit_char(n % 10))
    }
}

fn digit_str(d: u64) -> (r: &'static str)
    requires
        d < 10,
    ensures
        r@ == seq![digit_char(d)],
{
    proof {
        reveal_strlit("0");
        reveal_strlit("1");
        reveal_strlit("2");
        reveal_strlit("3");
        reveal_strlit("4");
        reveal_strlit("5");
        reveal_strlit("6");
        reveal_strlit("7");
        reveal_strlit("8");
        reveal_strlit("9");
    }
    let r = if d == 0 {
        "0"
    } else if d == 1 {
        "1"
    } else if d == 2 {
        "2"
    } else if d == 3 {
        "3"
    } else if d == 4 {
        "4"
    } else if d == 5 {
        "5"
    } else if d == 6 {
        "6"
    } else if d == 7 {
        "7"
    } else if d == 8 {
        "8"
    } else {
        "9"
    };
    proof {
        assert(r@ =~= seq![digit_char(d)]);
    }
    r
}

/// Render `n` in decimal.
pub fn u64_to_string(n: u64) -> (s: String)
    ensures
        s@ == dec_str(n),
    decreases n,
{
    if n < 10 {
        digit_str(n).to_owned()
    } else {
        let q = n / 10;
        let d = n % 10;
        let mut s = u64_to_string(q);
        s.append(digit_str(d));
        s
    }
}

/// The visit button of one row: disabled once the player was visited.
pub open spec fn button_html(p: PlayerView) -> Seq<char> {
    "\n            <button hx-post=\"/visited\""@ + (if p.visited {
        " disabled"@
    } else {
        Seq::<char>::empty()
    }) + " hx-vals='{\"visited_id\":"@ + dec_str(p.id) + "}'>\n                "@ + (if p.visited {
        "Already visited"@
    } else {
        "Visit"@
    }) + "\n            </button>\n        "@
}

/// One table row, keyed by the player's stable id.
pub open spec fn player_html(p: PlayerView) -> Seq<char> {
    "\n            <tr id=\"player-"@ + dec_str(p.id) + "\">\n                <td>"@ + p.name
        + "</td>\n                <td>"@ + button_html(p) + "</td>\n            </tr>"@
}

/// The rows of the roster, in roster order.
pub open spec fn rows_html(s: Seq<PlayerView>) -> Seq<char>
    decreases s.len(),
{
    if s.len() == 0 {
        Seq::empty()
    } else {
        rows_html(s.drop_last()) + player_html(s.last())
    }
}

/// The whole-roster table.
pub open spec fn roster_html(s: Seq<PlayerView>) -> Seq<char> {
    "<table id=\"room-list\">"@ + rows_html(s) + "</table>"@
}

/// Render one player as a table row.
pub fn player(p: &PlayerData) -> (r: String)
    ensures
        r@ == player_html(p@),
{
    let button_text = if p.visited {
        "Already visited"
    } else {
        "Visit"
    };
    let disabled = if p.visited {
        " disabled"
    } else {
        ""
    };
    let id_txt = u64_to_string(p.id);

    let mut button = String::new();
    button.append("\n            <button hx-post=\"/visited\"");
    button.append(disabled);
    button.append(" hx-vals='{\"visited_id\":");
    button.append(id_txt.as_str());
    button.append("}'>\n                ");
    button.append(button_text);
    button.append("\n            </button>\n        ");
    proof {
        reveal_strlit("");
        assert(button@ =~= button_html(p@));
    }

    let mut r = String::new();
    r.append("\n            <tr id=\"player-");
    r.append(id_txt.as_str());
    r.append("\">\n                <td>");
    r.append(p.name.as_str());
    r.append("</td>\n                <td>");
    r.append(button.as_str());
    r.append("</td>\n            </tr>");
    proof {
        assert(r@ =~= player_html(p@));
    }
    r
}

/// Render the whole roster as one table, one row per player, in the
/// order given.
pub fn player_list(players: &Vec<PlayerData>) -> (r: String)
    ensures
        r@ == roster_html(players@.map_values(|p: PlayerData| p@)),
{
    let ghost s = players@.map_values(|p: PlayerData| p@);
    let mut result = String::new();
    result.append("<table id=\"room-list\">");
    let mut k: usize = 0;
    while k < players.len()
        invariant
            k <= players.len(),
            s == players@.map_values(|p: PlayerData| p@),
            result@ == "<table id=\"room-list\">"@ + rows_html(s.take(k as int)),
        decreases players.len() - k,
    {
        let row = player(&players[k]);
        result.append(row.as_str());
        proof {
            assert(s.take(k as int + 1).drop_last() =~= s.take(k as int));
            assert(s.take(k as int + 1).last() == s[k as int]);
            assert(result@ =~= "<table id=\"room-list\">"@ + rows_html(s.take(k as int + 1)));
        }
        k = k + 1;
    }
    result.append("</table>");
    proof {
        assert(s.take(players@.len() as int) =~= s);
        assert(result@ =~= roster_html(s));
    }
    result
}

} // verus!
