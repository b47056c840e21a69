//! Algebraic notation of squares: column `a`..`h`, then row `1`..`8`.
use vstd::prelude::*;
use crate::rules::{on_board, Pos};

verus! {

/// The letter of a column.
pub open spec fn file_char(i: usize) -> char {
    if i == 0 {
        'a'
    } else if i == 1 {
        'b'
    } else if i == 2 {
        'c'
    } else if i == 3 {
        'd'
    } else if i == 4 {
        'e'
    } else if i == 5 {
        'f'
    } else if i == 6 {
        'g'
    } else {
        'h'
    }
}

/// The digit of a row.
pub open spec fn rank_char(i: usize) -> char {
    if i == 0 {
        '1'
    } else if i == 1 {
        '2'
    } else if i == 2 {
        '3'
    } else if i == 3 {
        '4'
    } else if i == 4 {
        '5'
    } else if i == 5 {
        '6'
    } else if i == 6 {
        '7'
    } else {
        '8'
    }
}

/// The algebraic name of a square, such as `a1` for (0, 0).
pub open spec fn notation(p: Pos) -> Seq<char> {
    seq![file_char(p.0), rank_char(p.1)]
}

pub(crate) fn file_str(i: usize) -> (r: &'static str)
    requires
        i < 8,
    ensures
        r@ == seq![file_char(i)],
{
    match i {
        0 => {
            proof {
                reveal_strlit("a");
            }
            "a"
        },
        1 => {
            proof {
                reveal_strlit("b");
            }
            "b"
        },
        2 => {
            proof {
                reveal_strlit("c");
            }
            "c"
        },
        3 => {
            proof {
                reveal_strlit("d");
            }
            "d"
        },
        4 => {
            proof {
                reveal_strlit("e");
            }
            "e"
        },
        5 => {
            proof {
                reveal_strlit("f");
            }
            "f"
        },
        6 => {
            proof {
                reveal_strlit("g");
            }
            "g"
        },
        _ => {
            proof {
                reveal_strlit("h");
            }
            "h"
        },
    }
}

pub(crate) fn rank_str(i: usize) -> (r: &'static str)
    requires
        i < 8,
    ensures
        r@ == seq![rank_char(i)],
{
    match i {
        0 => {
            proof {
                reveal_strlit("1");
            }
            "1"
        },
        1 => {
            proof {
                reveal_strlit("2");
            }
            "2"
        },
        2 => {
            proof {
                reveal_strlit("3");
            }
            "3"
        },
        3 => {
            proof {
                reveal_strlit("4");
            }
            "4"
        },
        4 => {
            proof {
                reveal_strlit("5");
            }
            "5"
        },
        5 => {
            proof {
                reveal_strlit("6");
            }
            "6"
        },
        6 => {
            proof {
                reveal_strlit("7");
            }
            "7"
        },
        _ => {
            proof {
                reveal_strlit("8");
            }
            "8"
        },
    }
}

/// The algebraic name of a square; an error for a square off the board.
pub fn to_notation(p: Pos) -> (r: Result<String, String>)
    ensures
        on_board(p) ==> (r matches Ok(s) && s@ == notation(p)),
        !on_board(p) ==> r.is_err(),
{
    if p.0 >= 8 || p.1 >= 8 {
        return Err(String::from_str("position is off the board"));
    }
    let mut s = String::from_str(file_str(p.0));
    s.append(rank_str(p.1));
    assert(s@ =~= notation(p));
    Ok(s)
}

} // verus!
