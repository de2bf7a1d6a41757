//! The parameter dictionary: a fixed, ordered table of well-known parameter
//! names. A name that stands in the table travels as its one-byte position, so
//! the order and the membership of the table are part of the wire format.
use vstd::prelude::*;
use vstd::utf8::*;

verus! {

/// How many names the dictionary holds.
pub const BUILTIN_COUNT: u8 = 43;

/// The name that stands at `index` in the dictionary. Positions outside the
/// table are given the last name, so that the function is total.
pub open spec fn builtin_name(index: int) -> Seq<char> {
    if index == 0 {
        "_target"@
    } else if index == 1 {
        "_number"@
    } else if index == 2 {
        "_number1"@
    } else if index == 3 {
        "_number2"@
    } else if index == 4 {
        "_number3"@
    } else if index == 5 {
        "_number4"@
    } else if index == 6 {
        "_vector1"@
    } else if index == 7 {
        "_vector2"@
    } else if index == 8 {
        "_vector3"@
    } else if index == 9 {
        "_vector4"@
    } else if index == 10 {
        "_position"@
    } else if index == 11 {
        "_min"@
    } else if index == 12 {
        "_max"@
    } else if index == 13 {
        "_power"@
    } else if index == 14 {
        "_x"@
    } else if index == 15 {
        "_y"@
    } else if index == 16 {
        "_z"@
    } else if index == 17 {
        "_radius"@
    } else if index == 18 {
        "_distance"@
    } else if index == 19 {
        "_time"@
    } else if index == 20 {
        "_base"@
    } else if index == 21 {
        "_ray"@
    } else if index == 22 {
        "_vector"@
    } else if index == 23 {
        "_axis"@
    } else if index == 24 {
        "_angle"@
    } else if index == 25 {
        "_pitch"@
    } else if index == 26 {
        "_instrument"@
    } else if index == 27 {
        "_volume"@
    } else if index == 28 {
        "_list1"@
    } else if index == 29 {
        "_list2"@
    } else if index == 30 {
        "_list"@
    } else if index == 31 {
        "_direction"@
    } else if index == 32 {
        "_from1"@
    } else if index == 33 {
        "_from2"@
    } else if index == 34 {
        "_to1"@
    } else if index == 35 {
        "_to2"@
    } else if index == 36 {
        "_root"@
    } else if index == 37 {
        "_toggle"@
    } else if index == 38 {
        "_mask"@
    } else if index == 39 {
        "_channel"@
    } else if index == 40 {
        "_slot"@
    } else if index == 41 {
        "_ray_end"@
    } else {
        "_ray_start"@
    }
}

/// The position of `name` in the dictionary, if it stands there.
pub open spec fn builtin_index(name: Seq<char>) -> Option<u8> {
    if exists|i: int| 0 <= i < 43 && builtin_name(i) == name {
        Some((choose|i: int| 0 <= i < 43 && builtin_name(i) == name) as u8)
    } else {
        None
    }
}

proof fn lemma_reveal_names()
    ensures
        builtin_name(0).len() == 7,
        builtin_name(0)[0] == '_',
        builtin_name(0)[1] == 't',
        builtin_name(0)[2] == 'a',
        builtin_name(0)[3] == 'r',
        builtin_name(0)[4] == 'g',
        builtin_name(0)[5] == 'e',
        builtin_name(0)[6] == 't',
        builtin_name(1).len() == 7,
        builtin_name(1)[0] == '_',
        builtin_name(1)[1] == 'n',
        builtin_name(1)[2] == 'u',
        builtin_name(1)[3] == 'm',
        builtin_name(1)[4] == 'b',
        builtin_name(1)[5] == 'e',
        builtin_name(1)[6] == 'r',
        builtin_name(2).len() == 8,
        builtin_name(2)[0] == '_',
        builtin_name(2)[1] == 'n',
        builtin_name(2)[2] == 'u',
        builtin_name(2)[3] == 'm',
        builtin_name(2)[4] == 'b',
        builtin_name(2)[5] == 'e',
        builtin_name(2)[6] == 'r',
        builtin_name(2)[7] == '1',
        builtin_name(3).len() == 8,
        builtin_name(3)[0] == '_',
        builtin_name(3)[1] == 'n',
        builtin_name(3)[2] == 'u',
        builtin_name(3)[3] == 'm',
        builtin_name(3)[4] == 'b',
        builtin_name(3)[5] == 'e',
        builtin_name(3)[6] == 'r',
        builtin_name(3)[7] == '2',
        builtin_name(4).len() == 8,
        builtin_name(4)[0] == '_',
        builtin_name(4)[1] == 'n',
        builtin_name(4)[2] == 'u',
        builtin_name(4)[3] == 'm',
        builtin_name(4)[4] == 'b',
        builtin_name(4)[5] == 'e',
        builtin_name(4)[6] == 'r',
        builtin_name(4)[7] == '3',
        builtin_name(5).len() == 8,
        builtin_name(5)[0] == '_',
        builtin_name(5)[1] == 'n',
        builtin_name(5)[2] == 'u',
        builtin_name(5)[3] == 'm',
        builtin_name(5)[4] == 'b',
        builtin_name(5)[5] == 'e',
        builtin_name(5)[6] == 'r',
        builtin_name(5)[7] == '4',
        builtin_name(6).len() == 8,
        builtin_name(6)[0] == '_',
        builtin_name(6)[1] == 'v',
        builtin_name(6)[2] == 'e',
        builtin_name(6)[3] == 'c',
        builtin_name(6)[4] == 't',
        builtin_name(6)[5] == 'o',
        builtin_name(6)[6] == 'r',
        builtin_name(6)[7] == '1',
        builtin_name(7).len() == 8,
        builtin_name(7)[0] == '_',
        builtin_name(7)[1] == 'v',
        builtin_name(7)[2] == 'e',
        builtin_name(7)[3] == 'c',
        builtin_name(7)[4] == 't',
        builtin_name(7)[5] == 'o',
        builtin_name(7)[6] == 'r',
        builtin_name(7)[7] == '2',
        builtin_name(8).len() == 8,
        builtin_name(8)[0] == '_',
        builtin_name(8)[1] == 'v',
        builtin_name(8)[2] == 'e',
        builtin_name(8)[3] == 'c',
        builtin_name(8)[4] == 't',
        builtin_name(8)[5] == 'o',
        builtin_name(8)[6] == 'r',
        builtin_name(8)[7] == '3',
        builtin_name(9).len() == 8,
        builtin_name(9)[0] == '_',
        builtin_name(9)[1] == 'v',
        builtin_name(9)[2] == 'e',
        builtin_name(9)[3] == 'c',
        builtin_name(9)[4] == 't',
        builtin_name(9)[5] == 'o',
        builtin_name(9)[6] == 'r',
        builtin_name(9)[7] == '4',
        builtin_name(10).len() == 9,
        builtin_name(10)[0] == '_',
        builtin_name(10)[1] == 'p',
        builtin_name(10)[2] == 'o',
        builtin_name(10)[3] == 's',
        builtin_name(10)[4] == 'i',
        builtin_name(10)[5] == 't',
        builtin_name(10)[6] == 'i',
        builtin_name(10)[7] == 'o',
        builtin_name(10)[8] == 'n',
        builtin_name(11).len() == 4,
        builtin_name(11)[0] == '_',
        builtin_name(11)[1] == 'm',
        builtin_name(11)[2] == 'i',
        builtin_name(11)[3] == 'n',
        builtin_name(12).len() == 4,
        builtin_name(12)[0] == '_',
        builtin_name(12)[1] == 'm',
        builtin_name(12)[2] == 'a',
        builtin_name(12)[3] == 'x',
        builtin_name(13).len() == 6,
        builtin_name(13)[0] == '_',
        builtin_name(13)[1] == 'p',
        builtin_name(13)[2] == 'o',
        builtin_name(13)[3] == 'w',
        builtin_name(13)[4] == 'e',
        builtin_name(13)[5] == 'r',
        builtin_name(14).len() == 2,
        builtin_name(14)[0] == '_',
        builtin_name(14)[1] == 'x',
        builtin_name(15).len() == 2,
        builtin_name(15)[0] == '_',
        builtin_name(15)[1] == 'y',
        builtin_name(16).len() == 2,
        builtin_name(16)[0] == '_',
        builtin_name(16)[1] == 'z',
        builtin_name(17).len() == 7,
        builtin_name(17)[0] == '_',
        builtin_name(17)[1] == 'r',
        builtin_name(17)[2] == 'a',
        builtin_name(17)[3] == 'd',
        builtin_name(17)[4] == 'i',
        builtin_name(17)[5] == 'u',
        builtin_name(17)[6] == 's',
        builtin_name(18).len() == 9,
        builtin_name(18)[0] == '_',
        builtin_name(18)[1] == 'd',
        builtin_name(18)[2] == 'i',
        builtin_name(18)[3] == 's',
        builtin_name(18)[4] == 't',
        builtin_name(18)[5] == 'a',
        builtin_name(18)[6] == 'n',
        builtin_name(18)[7] == 'c',
        builtin_name(18)[8] == 'e',
        builtin_name(19).len() == 5,
        builtin_name(19)[0] == '_',
        builtin_name(19)[1] == 't',
        builtin_name(19)[2] == 'i',
        builtin_name(19)[3] == 'm',
        builtin_name(19)[4] == 'e',
        builtin_name(20).len() == 5,
        builtin_name(20)[0] == '_',
        builtin_name(20)[1] == 'b',
        builtin_name(20)[2] == 'a',
        builtin_name(20)[3] == 's',
        builtin_name(20)[4] == 'e',
        builtin_name(21).len() == 4,
        builtin_name(21)[0] == '_',
        builtin_name(21)[1] == 'r',
        builtin_name(21)[2] == 'a',
        builtin_name(21)[3] == 'y',
        builtin_name(22).len() == 7,
        builtin_name(22)[0] == '_',
        builtin_name(22)[1] == 'v',
        builtin_name(22)[2] == 'e',
        builtin_name(22)[3] == 'c',
        builtin_name(22)[4] == 't',
        builtin_name(22)[5] == 'o',
        builtin_name(22)[6] == 'r',
        builtin_name(23).len() == 5,
        builtin_name(23)[0] == '_',
        builtin_name(23)[1] == 'a',
        builtin_name(23)[2] == 'x',
        builtin_name(23)[3] == 'i',
        builtin_name(23)[4] == 's',
        builtin_name(24).len() == 6,
        builtin_name(24)[0] == '_',
        builtin_name(24)[1] == 'a',
        builtin_name(24)[2] == 'n',
        builtin_name(24)[3] == 'g',
        builtin_name(24)[4] == 'l',
        builtin_name(24)[5] == 'e',
        builtin_name(25).len() == 6,
        builtin_name(25)[0] == '_',
        builtin_name(25)[1] == 'p',
        builtin_name(25)[2] == 'i',
        builtin_name(25)[3] == 't',
        builtin_name(25)[4] == 'c',
        builtin_name(25)[5] == 'h',
        builtin_name(26).len() == 11,
        builtin_name(26)[0] == '_',
        builtin_name(26)[1] == 'i',
        builtin_name(26)[2] == 'n',
        builtin_name(26)[3] == 's',
        builtin_name(26)[4] == 't',
        builtin_name(26)[5] == 'r',
        builtin_name(26)[6] == 'u',
        builtin_name(26)[7] == 'm',
        builtin_name(26)[8] == 'e',
        builtin_name(26)[9] == 'n',
        builtin_name(26)[10] == 't',
        builtin_name(27).len() == 7,
        builtin_name(27)[0] == '_',
        builtin_name(27)[1] == 'v',
        builtin_name(27)[2] == 'o',
        builtin_name(27)[3] == 'l',
        builtin_name(27)[4] == 'u',
        builtin_name(27)[5] == 'm',
        builtin_name(27)[6] == 'e',
        builtin_name(28).len() == 6,
        builtin_name(28)[0] == '_',
        builtin_name(28)[1] == 'l',
        builtin_name(28)[2] == 'i',
        builtin_name(28)[3] == 's',
        builtin_name(28)[4] == 't',
        builtin_name(28)[5] == '1',
        builtin_name(29).len() == 6,
        builtin_name(29)[0] == '_',
        builtin_name(29)[1] == 'l',
        builtin_name(29)[2] == 'i',
        builtin_name(29)[3] == 's',
        builtin_name(29)[4] == 't',
        builtin_name(29)[5] == '2',
        builtin_name(30).len() == 5,
        builtin_name(30)[0] == '_',
        builtin_name(30)[1] == 'l',
        builtin_name(30)[2] == 'i',
        builtin_name(30)[3] == 's',
        builtin_name(30)[4] == 't',
        builtin_name(31).len() == 10,
        builtin_name(31)[0] == '_',
        builtin_name(31)[1] == 'd',
        builtin_name(31)[2] == 'i',
        builtin_name(31)[3] == 'r',
        builtin_name(31)[4] == 'e',
        builtin_name(31)[5] == 'c',
        builtin_name(31)[6] == 't',
        builtin_name(31)[7] == 'i',
        builtin_name(31)[8] == 'o',
        builtin_name(31)[9] == 'n',
        builtin_name(32).len() == 6,
        builtin_name(32)[0] == '_',
        builtin_name(32)[1] == 'f',
        builtin_name(32)[2] == 'r',
        builtin_name(32)[3] == 'o',
        builtin_name(32)[4] == 'm',
        builtin_name(32)[5] == '1',
        builtin_name(33).len() == 6,
        builtin_name(33)[0] == '_',
        builtin_name(33)[1] == 'f',
        builtin_name(33)[2] == 'r',
        builtin_name(33)[3] == 'o',
        builtin_name(33)[4] == 'm',
        builtin_name(33)[5] == '2',
        builtin_name(34).len() == 4,
        builtin_name(34)[0] == '_',
        builtin_name(34)[1] == 't',
        builtin_name(34)[2] == 'o',
        builtin_name(34)[3] == '1',
        builtin_name(35).len() == 4,
        builtin_name(35)[0] == '_',
        builtin_name(35)[1] == 't',
        builtin_name(35)[2] == 'o',
        builtin_name(35)[3] == '2',
        builtin_name(36).len() == 5,
        builtin_name(36)[0] == '_',
        builtin_name(36)[1] == 'r',
        builtin_name(36)[2] == 'o',
        builtin_name(36)[3] == 'o',
        builtin_name(36)[4] == 't',
        builtin_name(37).len() == 7,
        builtin_name(37)[0] == '_',
        builtin_name(37)[1] == 't',
        builtin_name(37)[2] == 'o',
        builtin_name(37)[3] == 'g',
        builtin_name(37)[4] == 'g',
        builtin_name(37)[5] == 'l',
        builtin_name(37)[6] == 'e',
        builtin_name(38).len() == 5,
        builtin_name(38)[0] == '_',
        builtin_name(38)[1] == 'm',
        builtin_name(38)[2] == 'a',
        builtin_name(38)[3] == 's',
        builtin_name(38)[4] == 'k',
        builtin_name(39).len() == 8,
        builtin_name(39)[0] == '_',
        builtin_name(39)[1] == 'c',
        builtin_name(39)[2] == 'h',
        builtin_name(39)[3] == 'a',
        builtin_name(39)[4] == 'n',
        builtin_name(39)[5] == 'n',
        builtin_name(39)[6] == 'e',
        builtin_name(39)[7] == 'l',
        builtin_name(40).len() == 5,
        builtin_name(40)[0] == '_',
        builtin_name(40)[1] == 's',
        builtin_name(40)[2] == 'l',
        builtin_name(40)[3] == 'o',
        builtin_name(40)[4] == 't',
        builtin_name(41).len() == 8,
        builtin_name(41)[0] == '_',
        builtin_name(41)[1] == 'r',
        builtin_name(41)[2] == 'a',
        builtin_name(41)[3] == 'y',
        builtin_name(41)[4] == '_',
        builtin_name(41)[5] == 'e',
        builtin_name(41)[6] == 'n',
        builtin_name(41)[7] == 'd',
        builtin_name(42).len() == 10,
        builtin_name(42)[0] == '_',
        builtin_name(42)[1] == 'r',
        builtin_name(42)[2] == 'a',
        builtin_name(42)[3] == 'y',
        builtin_name(42)[4] == '_',
        builtin_name(42)[5] == 's',
        builtin_name(42)[6] == 't',
        builtin_name(42)[7] == 'a',
        builtin_name(42)[8] == 'r',
        builtin_name(42)[9] == 't',
{
    reveal_strlit("_target");
    reveal_strlit("_number");
    reveal_strlit("_number1");
    reveal_strlit("_number2");
    reveal_strlit("_number3");
    reveal_strlit("_number4");
    reveal_strlit("_vector1");
    reveal_strlit("_vector2");
    reveal_strlit("_vector3");
    reveal_strlit("_vector4");
    reveal_strlit("_position");
    reveal_strlit("_min");
    reveal_strlit("_max");
    reveal_strlit("_power");
    reveal_strlit("_x");
    reveal_strlit("_y");
    reveal_strlit("_z");
    reveal_strlit("_radius");
    reveal_strlit("_distance");
    reveal_strlit("_time");
    reveal_strlit("_base");
    reveal_strlit("_ray");
    reveal_strlit("_vector");
    reveal_strlit("_axis");
    reveal_strlit("_angle");
    reveal_strlit("_pitch");
    reveal_strlit("_instrument");
    reveal_strlit("_volume");
    reveal_strlit("_list1");
    reveal_strlit("_list2");
    reveal_strlit("_list");
    reveal_strlit("_direction");
    reveal_strlit("_from1");
    reveal_strlit("_from2");
    reveal_strlit("_to1");
    reveal_strlit("_to2");
    reveal_strlit("_root");
    reveal_strlit("_toggle");
    reveal_strlit("_mask");
    reveal_strlit("_channel");
    reveal_strlit("_slot");
    reveal_strlit("_ray_end");
    reveal_strlit("_ray_start");
}

/// No name stands twice in the dictionary.
pub proof fn lemma_builtin_names_distinct(i: int, j: int)
    requires
        0 <= i < 43,
        0 <= j < 43,
        i != j,
    ensures
        builtin_name(i) != builtin_name(j),
{
    lemma_reveal_names();
}

/// Every name of the dictionary is found again at its own position.
pub proof fn lemma_builtin_index_of_name(i: int)
    requires
        0 <= i < 43,
    ensures
        builtin_index(builtin_name(i)) == Some(i as u8),
{
    let j = choose|j: int| 0 <= j < 43 && builtin_name(j) == builtin_name(i);
    if j != i {
        lemma_builtin_names_distinct(i, j);
    }
}

/// Inverse lookup: the name at a position of the dictionary.
pub fn name_at(index: u8) -> (name: &'static str)
    requires
        index < BUILTIN_COUNT,
    ensures
        name@ == builtin_name(index as int),
{
    match index {
        0 => "_target",
        1 => "_number",
        2 => "_number1",
        3 => "_number2",
        4 => "_number3",
        5 => "_number4",
        6 => "_vector1",
        7 => "_vector2",
        8 => "_vector3",
        9 => "_vector4",
        10 => "_position",
        11 => "_min",
        12 => "_max",
        13 => "_power",
        14 => "_x",
        15 => "_y",
        16 => "_z",
        17 => "_radius",
        18 => "_distance",
        19 => "_time",
        20 => "_base",
        21 => "_ray",
        22 => "_vector",
        23 => "_axis",
        24 => "_angle",
        25 => "_pitch",
        26 => "_instrument",
        27 => "_volume",
        28 => "_list1",
        29 => "_list2",
        30 => "_list",
        31 => "_direction",
        32 => "_from1",
        33 => "_from2",
        34 => "_to1",
        35 => "_to2",
        36 => "_root",
        37 => "_toggle",
        38 => "_mask",
        39 => "_channel",
        40 => "_slot",
        41 => "_ray_end",
        _ => "_ray_start",
    }
}

/// Whether two byte strings are the same.
pub fn bytes_eq(a: &[u8], b: &[u8]) -> (same: bool)
    ensures
        same == (a@ == b@),
{
    if a.len() != b.len() {
        return false;
    }
    let mut i: usize = 0;
    while i < a.len()
        invariant
            a@.len() == b@.len(),
            i <= a@.len(),
            forall|k: int| 0 <= k < i ==> a@[k] == b@[k],
        decreases a@.len() - i,
    {
        if a[i] != b[i] {
            return false;
        }
        i += 1;
    }
    assert(a@ =~= b@);
    true
}

/// Two texts are the same exactly when their UTF-8 bytes are.
pub proof fn lemma_text_bytes_injective(a: Seq<char>, b: Seq<char>)
    ensures
        (encode_utf8(a) == encode_utf8(b)) == (a == b),
{
    encode_utf8_decode_utf8(a);
    encode_utf8_decode_utf8(b);
}

/// Forward lookup: the position of `name` in the dictionary, or `None` where it
/// matches no entry exactly.
pub fn index_of(name: &str) -> (found: Option<u8>)
    ensures
        found == builtin_index(name@),
        found matches Some(i) ==> i < BUILTIN_COUNT && builtin_name(i as int) == name@,
{
    let wanted = name.as_bytes();
    let mut i: u8 = 0;
    while i < BUILTIN_COUNT
        invariant
            i <= BUILTIN_COUNT,
            wanted@ == encode_utf8(name@),
            forall|k: int| 0 <= k < i ==> builtin_name(k) != name@,
        decreases BUILTIN_COUNT - i,
    {
        let entry = name_at(i);
        if bytes_eq(wanted, entry.as_bytes()) {
            proof {
                lemma_text_bytes_injective(name@, entry@);
                lemma_builtin_index_of_name(i as int);
            }
            return Some(i);
        }
        proof {
            lemma_text_bytes_injective(name@, entry@);
        }
        i += 1;
    }
    None
}

} // verus!
