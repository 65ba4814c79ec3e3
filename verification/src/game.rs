//! The calls into the Screeps game API that the verified logic makes.
use crate::common::id_key::{all_digits, decimal, digits_value, is_digit, lemma_decimal_digits};
use vstd::prelude::*;

verus! {

/// `screeps::game::time`: the current game tick. It depends on the running
/// game, so nothing is promised of its value.
#[verifier::external_body]
pub(crate) fn game_time() -> (tick: u32) {
    screeps::game::time()
}

/// The room name that screeps-game-api displays for a packed room name:
/// `E<x>` or `W<-x-1>`, then `S<y>` or `N<-y-1>`, where `x` is the high byte
/// minus 128 and `y` the low byte minus 128.
pub open spec fn room_name_text(packed: u16) -> Seq<char> {
    let x = (packed / 256) as int - 128;
    let y = (packed % 256) as int - 128;
    let horizontal = if x >= 0 {
        seq!['E'] + decimal(x as nat)
    } else {
        seq!['W'] + decimal((-x - 1) as nat)
    };
    let vertical = if y >= 0 {
        seq!['S'] + decimal(y as nat)
    } else {
        seq!['N'] + decimal((-y - 1) as nat)
    };
    horizontal + vertical
}

/// The room that a name denotes, if any (see `room_name_parse`).
pub open spec fn room_of_name(text: Seq<char>) -> Option<u16> {
    room_name_parse(text)
}

proof fn lemma_digit_prefix_split(a: Seq<char>, c: char, s: Seq<char>, b: Seq<char>, d: char, t: Seq<char>)
    requires
        all_digits(a),
        all_digits(b),
        !is_digit(c),
        !is_digit(d),
        a.push(c) + s == b.push(d) + t,
    ensures
        a == b,
        c == d,
        s == t,
{
    let l = a.push(c) + s;
    let r = b.push(d) + t;
    if a.len() < b.len() {
        assert(l[a.len() as int] == c);
        assert(r[a.len() as int] == b[a.len() as int]);
    } else if b.len() < a.len() {
        assert(r[b.len() as int] == d);
        assert(l[b.len() as int] == a[b.len() as int]);
    } else {
        assert forall|i: int| 0 <= i < a.len() implies a[i] == b[i] by {
            assert(l[i] == r[i]);
        }
        assert(a =~= b);
        assert(l[a.len() as int] == r[a.len() as int]);
        assert(s =~= l.subrange(a.len() as int + 1, l.len() as int));
        assert(t =~= r.subrange(a.len() as int + 1, r.len() as int));
    }
}

proof fn lemma_decimal_injective(a: nat, b: nat)
    requires
        decimal(a) == decimal(b),
    ensures
        a == b,
{
    lemma_decimal_digits(a);
    lemma_decimal_digits(b);
}

/// Different rooms are displayed under different names.
pub proof fn lemma_room_name_text_injective(p: u16, q: u16)
    requires
        room_name_text(p) == room_name_text(q),
    ensures
        p == q,
{
    let xp = (p / 256) as int - 128;
    let yp = (p % 256) as int - 128;
    let xq = (q / 256) as int - 128;
    let yq = (q % 256) as int - 128;
    let ap: nat = if xp >= 0 { xp as nat } else { (-xp - 1) as nat };
    let aq: nat = if xq >= 0 { xq as nat } else { (-xq - 1) as nat };
    let bp: nat = if yp >= 0 { yp as nat } else { (-yp - 1) as nat };
    let bq: nat = if yq >= 0 { yq as nat } else { (-yq - 1) as nat };
    let cp: char = if xp >= 0 { 'E' } else { 'W' };
    let cq: char = if xq >= 0 { 'E' } else { 'W' };
    let vp: char = if yp >= 0 { 'S' } else { 'N' };
    let vq: char = if yq >= 0 { 'S' } else { 'N' };
    lemma_decimal_digits(ap);
    lemma_decimal_digits(aq);
    lemma_decimal_digits(bp);
    lemma_decimal_digits(bq);
    let tp = room_name_text(p);
    let tq = room_name_text(q);
    assert(tp[0] == cp);
    assert(tq[0] == cq);
    assert(cp == cq);
    assert(tp.drop_first() =~= decimal(ap).push(vp) + decimal(bp));
    assert(tq.drop_first() =~= decimal(aq).push(vq) + decimal(bq));
    lemma_digit_prefix_split(decimal(ap), vp, decimal(bp), decimal(aq), vq, decimal(bq));
    lemma_decimal_injective(ap, aq);
    lemma_decimal_injective(bp, bq);
    assert(xp == xq);
    assert(yp == yq);
    assert(p == (p / 256) * 256 + p % 256);
    assert(q == (q / 256) * 256 + q % 256);
}

/// A displayed room name denotes its room.
pub proof fn lemma_room_of_displayed_name(p: u16)
    ensures
        room_of_name(room_name_text(p)) == Some(p),
{
    let x = (p / 256) as int - 128;
    let y = (p % 256) as int - 128;
    let ax: nat = if x >= 0 { x as nat } else { (-x - 1) as nat };
    let ay: nat = if y >= 0 { y as nat } else { (-y - 1) as nat };
    lemma_decimal_digits(ax);
    lemma_decimal_digits(ay);
    let dx = decimal(ax);
    let dy = decimal(ay);
    let text = room_name_text(p);
    let j0: int = 1 + dx.len() as int;
    assert(text[j0] == (if y >= 0 { 'S' } else { 'N' }));
    assert forall|i: int| 2 <= i < j0 implies !is_room_separator(#[trigger] text[i]) by {
        assert(text[i] == dx[i - 1]);
        assert(is_digit(dx[i - 1]));
    }
    assert(first_sep_at(text, j0));
    let j = choose|j: int| first_sep_at(text, j);
    if j < j0 {
        assert(text[j] == dx[j - 1]);
        assert(is_digit(dx[j - 1]));
    } else if j > j0 {
        assert(!is_room_separator(text[j0]));
    }
    assert(j == j0);
    assert(text.subrange(1, j0) =~= dx);
    assert(text.subrange(j0 + 1, text.len() as int) =~= dy);
    assert(is_digit(dx[0]));
    assert(is_digit(dy[0]));
    assert(p == (p / 256) * 256 + p % 256);
}

/// Whether `c` ends the first coordinate of a room name.
pub open spec fn is_room_separator(c: char) -> bool {
    c == 'N' || c == 'n' || c == 'S' || c == 's'
}

/// What `str::parse::<i32>` accepts: an optional sign, then one or more
/// digits whose value fits in an `i32`.
pub open spec fn parses_as_i32(s: Seq<char>) -> bool {
    let negative = s.len() > 0 && s[0] == '-';
    let body = if s.len() > 0 && (s[0] == '+' || s[0] == '-') { s.drop_first() } else { s };
    &&& body.len() > 0
    &&& all_digits(body)
    &&& if negative { digits_value(body) <= 0x8000_0000 } else { digits_value(body) <= 0x7fff_ffff }
}

/// Whether `str::parse::<i32>` reads `s` as `i32::MIN`.
pub open spec fn is_i32_min_text(s: Seq<char>) -> bool {
    &&& s.len() >= 2
    &&& s[0] == '-'
    &&& all_digits(s.drop_first())
    &&& digits_value(s.drop_first()) == 0x8000_0000
}

/// The value that `str::parse::<i32>` gives for `s`, where it accepts it.
pub open spec fn i32_text_value(s: Seq<char>) -> int {
    let body = if s.len() > 0 && (s[0] == '+' || s[0] == '-') { s.drop_first() } else { s };
    if s.len() > 0 && s[0] == '-' {
        -(digits_value(body) as int)
    } else {
        digits_value(body) as int
    }
}

/// Whether `j` is where the first coordinate of a room name ends: the first
/// `N`/`S` after the second character.
pub open spec fn first_sep_at(text: Seq<char>, j: int) -> bool {
    &&& 2 <= j < text.len()
    &&& is_room_separator(text[j])
    &&& forall|i: int| 2 <= i < j ==> !is_room_separator(#[trigger] text[i])
}

/// What `RoomName::from_str` of screeps-game-api gives for `text`, in packed
/// form: an `E`/`W`, the first coordinate up to the first `N`/`S` after the
/// second character, the second coordinate to the end, both read by
/// `str::parse::<i32>`; west and north coordinates `c` become `-c - 1`; both
/// must lie in `-128..128`, and the room packs as `(x + 128) * 256 + y + 128`.
pub open spec fn room_name_parse(text: Seq<char>) -> Option<u16> {
    if exists|j: int| first_sep_at(text, j) {
        let j = choose|j: int| first_sep_at(text, j);
        let x = text.subrange(1, j);
        let y = text.subrange(j + 1, text.len() as int);
        let east = text[0] == 'E' || text[0] == 'e';
        let west = text[0] == 'W' || text[0] == 'w';
        let south = text[j] == 'S' || text[j] == 's';
        if (east || west) && parses_as_i32(x) && j + 1 < text.len() && parses_as_i32(y) {
            let rx = if east { i32_text_value(x) } else { -i32_text_value(x) - 1 };
            let ry = if south { i32_text_value(y) } else { -i32_text_value(y) - 1 };
            if -128 <= rx < 128 && -128 <= ry < 128 {
                Some(((rx + 128) * 256 + (ry + 128)) as u16)
            } else {
                None
            }
        } else {
            None
        }
    } else {
        None
    }
}

/// Whether `RoomName::from_str` of screeps-game-api overflows on `text`. It
/// splits the text at the first `N`/`S` after its second character, parses
/// both coordinates as `i32`, and mirrors a west or north coordinate `c` to
/// `-c - 1`, which overflows for `i32::MIN`.
pub open spec fn room_text_overflows(text: Seq<char>) -> bool {
    exists|j: int|
        #![trigger text[j]]
        2 <= j < text.len() && is_room_separator(text[j]) && (forall|i: int|
            2 <= i < j ==> !is_room_separator(#[trigger] text[i])) && {
            let x = text.subrange(1, j);
            let y = text.subrange(j + 1, text.len() as int);
            let west = text[0] == 'W' || text[0] == 'w';
            &&& west || text[0] == 'E' || text[0] == 'e'
            &&& parses_as_i32(x)
            &&& j + 1 < text.len()
            &&& parses_as_i32(y)
            &&& (west && is_i32_min_text(x)) || ((text[j] == 'N' || text[j] == 'n') && is_i32_min_text(y))
        }
}

/// A displayed room name never makes `RoomName::from_str` overflow: it holds
/// no minus sign.
pub proof fn lemma_displayed_name_never_overflows(p: u16)
    ensures
        !room_text_overflows(room_name_text(p)),
{
    let x = (p / 256) as int - 128;
    let y = (p % 256) as int - 128;
    let ax: nat = if x >= 0 { x as nat } else { (-x - 1) as nat };
    let ay: nat = if y >= 0 { y as nat } else { (-y - 1) as nat };
    lemma_decimal_digits(ax);
    lemma_decimal_digits(ay);
    let text = room_name_text(p);
    assert forall|i: int| 0 <= i < text.len() implies #[trigger] text[i] != '-' by {
        if 1 <= i < 1 + decimal(ax).len() {
            assert(is_digit(decimal(ax)[i - 1]));
        } else if 2 + decimal(ax).len() <= i {
            assert(is_digit(decimal(ay)[i - 2 - decimal(ax).len()]));
        }
    }
    if room_text_overflows(text) {
        let j = choose|j: int|
            #![trigger text[j]]
            2 <= j < text.len() && is_room_separator(text[j]) && (forall|i: int|
                2 <= i < j ==> !is_room_separator(#[trigger] text[i])) && {
                let x = text.subrange(1, j);
                let y = text.subrange(j + 1, text.len() as int);
                let west = text[0] == 'W' || text[0] == 'w';
                &&& west || text[0] == 'E' || text[0] == 'e'
                &&& parses_as_i32(x)
                &&& j + 1 < text.len()
                &&& parses_as_i32(y)
                &&& (west && is_i32_min_text(x)) || ((text[j] == 'N' || text[j] == 'n') && is_i32_min_text(y))
            };
        assert(text.subrange(1, j)[0] == text[1]);
        assert(text.subrange(j + 1, text.len() as int)[0] == text[j + 1]);
    }
}

/// `RoomName::from_packed(packed).to_string()` of screeps-game-api: the
/// `Display` of a room name, as `room_name_text` states it (without the `sim`
/// feature, which this crate does not enable).
#[verifier::external_body]
pub(crate) fn room_name_string(packed: u16) -> (name: String)
    ensures
        name@ == room_name_text(packed),
{
    screeps::RoomName::from_packed(packed).to_string()
}

/// `RoomName::from_str` of screeps-game-api, taken to the packed form with
/// `packed_repr`: the room that `room_name_parse` states, `None` where the
/// text is no room name (without the `sim` feature, which this crate does not
/// enable). Texts on which it overflows (and panics where overflow is
/// checked) are left out.
#[verifier::external_body]
pub(crate) fn parse_room_name(text: &str) -> (packed: Option<u16>)
    requires
        !room_text_overflows(text@),
    ensures
        packed == room_name_parse(text@),
{
    match text.parse::<screeps::RoomName>() {
        Ok(name) => Some(name.packed_repr()),
        Err(_) => None,
    }
}

/// The kinds of body part a creep can have.
#[derive(Clone, Copy, Debug, PartialEq, Eq, Structural)]
pub enum BodyPart {
    Move,
    Work,
    Carry,
    Attack,
    RangedAttack,
    Tough,
    Heal,
    Claim,
}

/// The energy that one body part costs (the `BODYPART_COST` constant).
pub open spec fn body_part_cost(part: BodyPart) -> u32 {
    match part {
        BodyPart::Move => 50,
        BodyPart::Work => 100,
        BodyPart::Carry => 50,
        BodyPart::Attack => 80,
        BodyPart::RangedAttack => 150,
        BodyPart::Tough => 10,
        BodyPart::Heal => 250,
        BodyPart::Claim => 600,
    }
}

/// `Part::cost` of screeps-game-api: the `BODYPART_COST` of each part.
#[verifier::external_body]
pub(crate) fn part_cost(part: BodyPart) -> (cost: u32)
    ensures
        cost == body_part_cost(part),
{
    let part = match part {
        BodyPart::Move => screeps::Part::Move,
        BodyPart::Work => screeps::Part::Work,
        BodyPart::Carry => screeps::Part::Carry,
        BodyPart::Attack => screeps::Part::Attack,
        BodyPart::RangedAttack => screeps::Part::RangedAttack,
        BodyPart::Tough => screeps::Part::Tough,
        BodyPart::Heal => screeps::Part::Heal,
        BodyPart::Claim => screeps::Part::Claim,
    };
    part.cost()
}

} // verus!
