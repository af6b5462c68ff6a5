//! The level loader: parses a textual map into entity-creation calls.
//!
//! A map is a grid of single-character tokens separated by spaces within a
//! row and by line breaks between rows. Leading and trailing whitespace of
//! the whole text and of each row is insignificant. Tokens: `.` floor,
//! `W` wall (on floor), `P` player (on floor), `B` box (on floor),
//! `S` box spot (on floor), `N` nothing; anything else is a format error
//! and the level is rejected whole, with no entities created.

use vstd::prelude::*;
use vstd::string::StrSliceExecFns;
use vstd::string::StringExecFns;

use crate::Entity;
use crate::EntityModel;
use crate::Game;
use crate::GameError;
use crate::box_entity;
use crate::box_model;
use crate::box_spot_entity;
use crate::box_spot_model;
use crate::floor_entity;
use crate::floor_model;
use crate::models;
use crate::player_entity;
use crate::player_model;
use crate::wall_entity;
use crate::wall_model;

verus! {

/// The whitespace that trimming strips: spaces, tabs and carriage returns,
/// and (when trimming the whole text, `nl` set) line breaks too.
pub open spec fn char_ws(c: char, nl: bool) -> bool {
    c == ' ' || c == '\t' || c == '\r' || (nl && c == '\n')
}

pub open spec fn trim_front(s: Seq<char>, nl: bool) -> Seq<char>
    decreases s.len(),
{
    if s.len() > 0 && char_ws(s[0], nl) {
        trim_front(s.drop_first(), nl)
    } else {
        s
    }
}

pub open spec fn trim_back(s: Seq<char>, nl: bool) -> Seq<char>
    decreases s.len(),
{
    if s.len() > 0 && char_ws(s[s.len() - 1], nl) {
        trim_back(s.drop_last(), nl)
    } else {
        s
    }
}

/// `s` without leading and trailing whitespace.
pub open spec fn trim(s: Seq<char>, nl: bool) -> Seq<char> {
    trim_back(trim_front(s, nl), nl)
}

/// `s` split on `sep`, exactly as `str::split` does it: `n` separators
/// yield `n + 1` pieces, empty pieces included.
pub open spec fn split_on(s: Seq<char>, sep: char) -> Seq<Seq<char>>
    decreases s.len(),
{
    if s.len() == 0 {
        seq![Seq::<char>::empty()]
    } else if s[0] == sep {
        seq![Seq::<char>::empty()] + split_on(s.drop_first(), sep)
    } else {
        let rest = split_on(s.drop_first(), sep);
        seq![seq![s[0]] + rest[0]] + rest.drop_first()
    }
}

/// The entities one cell token creates at `(x, y)`, or `None` for an
/// unrecognized token.
pub open spec fn cell_entities(tok: Seq<char>, x: int, y: int) -> Option<Seq<EntityModel>> {
    if tok.len() == 1 {
        let c = tok[0];
        if c == '.' {
            Some(seq![floor_model(x, y)])
        } else if c == 'W' {
            Some(seq![floor_model(x, y), wall_model(x, y)])
        } else if c == 'P' {
            Some(seq![floor_model(x, y), player_model(x, y)])
        } else if c == 'B' {
            Some(seq![floor_model(x, y), box_model(x, y)])
        } else if c == 'S' {
            Some(seq![floor_model(x, y), box_spot_model(x, y)])
        } else if c == 'N' {
            Some(Seq::<EntityModel>::empty())
        } else {
            None
        }
    } else {
        None
    }
}

/// The entities of a row's tokens, the first at column `x`, row `y`.
pub open spec fn row_entities_from(toks: Seq<Seq<char>>, x: int, y: int) -> Option<
    Seq<EntityModel>,
>
    decreases toks.len(),
{
    if toks.len() == 0 {
        Some(Seq::<EntityModel>::empty())
    } else {
        match (cell_entities(toks[0], x, y), row_entities_from(toks.drop_first(), x + 1, y)) {
            (Some(es), Some(rest)) => Some(es + rest),
            _ => None,
        }
    }
}

/// A row's tokens: the row trimmed, then split on single spaces.
pub open spec fn row_tokens(row: Seq<char>) -> Seq<Seq<char>> {
    split_on(trim(row, false), ' ')
}

/// The entities of the rows, the first row at `y`, growing downward.
pub open spec fn rows_entities_from(rows: Seq<Seq<char>>, y: int) -> Option<Seq<EntityModel>>
    decreases rows.len(),
{
    if rows.len() == 0 {
        Some(Seq::<EntityModel>::empty())
    } else {
        match (row_entities_from(row_tokens(rows[0]), 0, y), rows_entities_from(
            rows.drop_first(),
            y + 1,
        )) {
            (Some(es), Some(rest)) => Some(es + rest),
            _ => None,
        }
    }
}

/// What a map text denotes: the entity sequence it creates, in creation
/// order, or `None` if any token is unrecognized.
pub open spec fn parse_map(s: Seq<char>) -> Option<Seq<EntityModel>> {
    rows_entities_from(split_on(trim(s, true), '\n'), 0)
}

proof fn lemma_trim_front_skip(s: Seq<char>, nl: bool, i: int)
    requires
        0 <= i <= s.len(),
        forall|j: int| 0 <= j < i ==> char_ws(s[j], nl),
        i < s.len() ==> !char_ws(s[i], nl),
    ensures
        trim_front(s, nl) == s.skip(i),
    decreases i,
{
    if i == 0 {
        assert(s.skip(0) =~= s);
    } else {
        assert(char_ws(s[0], nl));
        let s1 = s.drop_first();
        assert(forall|j: int| 0 <= j < i - 1 ==> char_ws(s1[j], nl));
        lemma_trim_front_skip(s1, nl, i - 1);
        assert(s1.skip(i - 1) =~= s.skip(i));
    }
}

proof fn lemma_trim_back_take(s: Seq<char>, nl: bool, i: int)
    requires
        0 <= i <= s.len(),
        forall|j: int| i <= j < s.len() ==> char_ws(s[j], nl),
        i > 0 ==> !char_ws(s[i - 1], nl),
    ensures
        trim_back(s, nl) == s.take(i),
    decreases s.len(),
{
    if s.len() == 0 {
        assert(s.take(0) =~= s);
    } else if char_ws(s[s.len() - 1], nl) {
        assert(i < s.len());
        let s1 = s.drop_last();
        assert(forall|j: int| i <= j < s1.len() ==> char_ws(s1[j], nl));
        lemma_trim_back_take(s1, nl, i);
        assert(s1.take(i) =~= s.take(i));
    } else {
        assert(i == s.len());
        assert(s.take(i) =~= s);
    }
}

proof fn lemma_split_on_head(s: Seq<char>, sep: char, i: int)
    requires
        0 <= i <= s.len(),
        forall|j: int| 0 <= j < i ==> s[j] != sep,
        i < s.len() ==> s[i] == sep,
    ensures
        i == s.len() ==> split_on(s, sep) == seq![s],
        i < s.len() ==> split_on(s, sep) == seq![s.take(i)] + split_on(s.skip(i + 1), sep),
    decreases i,
{
    if i == 0 {
        if s.len() == 0 {
            assert(split_on(s, sep) =~~= seq![s]);
        } else {
            assert(s[0] == sep);
            assert(split_on(s, sep) == seq![Seq::<char>::empty()] + split_on(s.drop_first(), sep));
            assert(s.drop_first() =~= s.skip(1));
            assert(s.take(0) =~= Seq::<char>::empty());
            assert(split_on(s, sep) =~~= seq![s.take(0)] + split_on(s.skip(1), sep));
        }
    } else {
        assert(s[0] != sep);
        let s1 = s.drop_first();
        assert(forall|j: int| 0 <= j < i - 1 ==> s1[j] != sep);
        assert(i - 1 < s1.len() ==> s1[i - 1] == sep);
        lemma_split_on_head(s1, sep, i - 1);
        let r1 = split_on(s1, sep);
        assert(split_on(s, sep) == seq![seq![s[0]] + r1[0]] + r1.drop_first());
        if i == s.len() {
            assert(r1 == seq![s1]);
            assert(seq![s[0]] + s1 =~= s);
            assert(split_on(s, sep) =~~= seq![s]);
        } else {
            assert(r1 == seq![s1.take(i - 1)] + split_on(s1.skip(i), sep));
            assert(r1[0] == s1.take(i - 1));
            assert(seq![s[0]] + s1.take(i - 1) =~= s.take(i));
            assert(r1.drop_first() =~= split_on(s1.skip(i), sep));
            assert(s1.skip(i) =~= s.skip(i + 1));
            assert(split_on(s, sep) =~~= seq![s.take(i)] + split_on(s.skip(i + 1), sep));
        }
    }
}

proof fn lemma_models_append(a: Seq<Entity>, b: Seq<Entity>)
    ensures
        models(a + b) == models(a) + models(b),
{
    assert(models(a + b) =~= models(a) + models(b));
}

fn char_ws_exec(c: char, nl: bool) -> (b: bool)
    ensures
        b == char_ws(c, nl),
{
    c == ' ' || c == '\t' || c == '\r' || (nl && c == '\n')
}

fn str_to_chars(s: &str) -> (r: Vec<char>)
    ensures
        r@ == s@,
{
    let n = s.unicode_len();
    let mut v: Vec<char> = Vec::new();
    let mut i: usize = 0;
    while i < n
        invariant
            0 <= i <= n,
            n == s@.len(),
            v@.len() == i,
            forall|j: int| 0 <= j < i ==> v@[j] == s@[j],
        decreases n - i,
    {
        let c = s.get_char(i);
        v.push(c);
        i += 1;
    }
    proof {
        assert(v@ =~= s@);
    }
    v
}

fn trim_range(chars: &Vec<char>, lo: usize, hi: usize, nl: bool) -> (r: (usize, usize))
    requires
        lo <= hi <= chars@.len(),
    ensures
        lo <= r.0 <= r.1 <= hi,
        trim(chars@.subrange(lo as int, hi as int), nl) == chars@.subrange(
            r.0 as int,
            r.1 as int,
        ),
{
    let mut a = lo;
    while a < hi && char_ws_exec(chars[a], nl)
        invariant
            lo <= a <= hi <= chars@.len(),
            forall|j: int| lo <= j < a ==> char_ws(chars@[j], nl),
        decreases hi - a,
    {
        a += 1;
    }
    let mut b = hi;
    while b > a && char_ws_exec(chars[b - 1], nl)
        invariant
            a <= b <= hi <= chars@.len(),
            forall|j: int| b <= j < hi ==> char_ws(chars@[j], nl),
        decreases b,
    {
        b -= 1;
    }
    proof {
        let s = chars@.subrange(lo as int, hi as int);
        assert(forall|j: int| 0 <= j < a - lo ==> char_ws(s[j], nl));
        lemma_trim_front_skip(s, nl, a - lo);
        let t = chars@.subrange(a as int, hi as int);
        assert(trim_front(s, nl) =~= t);
        assert(forall|j: int| b - a <= j < t.len() ==> char_ws(t[j], nl));
        lemma_trim_back_take(t, nl, b - a);
        assert(trim_back(t, nl) =~= chars@.subrange(a as int, b as int));
    }
    (a, b)
}

fn find_char(chars: &Vec<char>, lo: usize, hi: usize, sep: char) -> (r: usize)
    requires
        lo <= hi <= chars@.len(),
    ensures
        lo <= r <= hi,
        forall|j: int| lo <= j < r ==> chars@[j] != sep,
        r < hi ==> chars@[r as int] == sep,
{
    let mut i: usize = lo;
    while i < hi && chars[i] != sep
        invariant
            lo <= i <= hi <= chars@.len(),
            forall|j: int| lo <= j < i ==> chars@[j] != sep,
        decreases hi - i,
    {
        i += 1;
    }
    i
}

fn parse_tokens(chars: &Vec<char>, lo: usize, hi: usize, x: i32, y: i32) -> (r: Result<
    Vec<Entity>,
    GameError,
>)
    requires
        lo <= hi <= chars@.len(),
        x + (hi - lo) < i32::MAX,
    ensures
        match row_entities_from(
            split_on(chars@.subrange(lo as int, hi as int), ' '),
            x as int,
            y as int,
        ) {
            Some(es) => r matches Ok(v) && models(v@) == es,
            None => r == Err::<Vec<Entity>, GameError>(GameError::MapFormatError),
        },
    decreases hi - lo,
{
    let ghost s = chars@.subrange(lo as int, hi as int);
    let sp = find_char(chars, lo, hi, ' ');
    proof {
        assert(forall|j: int| 0 <= j < sp - lo ==> s[j] != ' ');
        lemma_split_on_head(s, ' ', sp - lo);
    }
    let ghost toks = split_on(s, ' ');
    let ghost tok = s.take(sp - lo);
    proof {
        if sp == hi {
            assert(tok =~= s);
            assert(toks == seq![tok]);
        }
        assert(toks[0] == tok);
        assert(toks.len() > 0);
    }

    let mut out: Vec<Entity> = Vec::new();
    if sp - lo == 1 {
        let c = chars[lo];
        proof {
            assert(tok.len() == 1 && tok[0] == c);
        }
        if c == '.' {
            out.push(floor_entity(x, y));
        } else if c == 'W' {
            out.push(floor_entity(x, y));
            out.push(wall_entity(x, y));
        } else if c == 'P' {
            out.push(floor_entity(x, y));
            out.push(player_entity(x, y));
        } else if c == 'B' {
            out.push(floor_entity(x, y));
            out.push(box_entity(x, y));
        } else if c == 'S' {
            out.push(floor_entity(x, y));
            out.push(box_spot_entity(x, y));
        } else if c == 'N' {
        } else {
            proof {
                assert(cell_entities(tok, x as int, y as int) is None);
                assert(row_entities_from(toks, x as int, y as int) is None);
            }
            return Err(GameError::MapFormatError);
        }
    } else {
        proof {
            assert(tok.len() != 1);
            assert(cell_entities(tok, x as int, y as int) is None);
            assert(row_entities_from(toks, x as int, y as int) is None);
        }
        return Err(GameError::MapFormatError);
    }
    let ghost cell_es = cell_entities(tok, x as int, y as int)->Some_0;
    proof {
        assert(cell_entities(tok, x as int, y as int) is Some);
        assert(cell_es =~= models(out@));
    }

    if sp == hi {
        proof {
            assert(toks.drop_first() =~= Seq::<Seq<char>>::empty());
            assert(row_entities_from(toks.drop_first(), x as int + 1, y as int) == Some(
                Seq::<EntityModel>::empty(),
            ));
            assert(row_entities_from(toks, x as int, y as int) == Some(
                cell_es + Seq::<EntityModel>::empty(),
            ));
            assert(cell_es + Seq::<EntityModel>::empty() =~= cell_es);
        }
        return Ok(out);
    }

    let ghost s2 = chars@.subrange(sp + 1, hi as int);
    proof {
        assert(toks == seq![tok] + split_on(s.skip(sp - lo + 1), ' '));
        assert(s.skip(sp - lo + 1) =~= s2);
        assert(toks.drop_first() =~= split_on(s2, ' '));
        assert(x + 1 + (hi - (sp + 1)) < i32::MAX);
    }
    match parse_tokens(chars, sp + 1, hi, x + 1, y) {
        Ok(mut rest_v) => {
            let ghost pre_out = out@;
            let ghost pre_rest = rest_v@;
            out.append(&mut rest_v);
            proof {
                lemma_models_append(pre_out, pre_rest);
                assert(row_entities_from(split_on(s2, ' '), x as int + 1, y as int) == Some(
                    models(pre_rest),
                ));
                assert(row_entities_from(toks, x as int, y as int) == Some(
                    cell_es + models(pre_rest),
                ));
                assert(models(out@) == cell_es + models(pre_rest));
            }
            Ok(out)
        },
        Err(e) => {
            proof {
                assert(row_entities_from(split_on(s2, ' '), x as int + 1, y as int) is None);
                assert(row_entities_from(toks, x as int, y as int) is None);
            }
            Err(e)
        },
    }
}

fn parse_rows(chars: &Vec<char>, lo: usize, hi: usize, y: i32) -> (r: Result<
    Vec<Entity>,
    GameError,
>)
    requires
        lo <= hi <= chars@.len(),
        0 <= y,
        y + (hi - lo) < i32::MAX,
    ensures
        match rows_entities_from(
            split_on(chars@.subrange(lo as int, hi as int), '\n'),
            y as int,
        ) {
            Some(es) => r matches Ok(v) && models(v@) == es,
            None => r == Err::<Vec<Entity>, GameError>(GameError::MapFormatError),
        },
    decreases hi - lo,
{
    let ghost s = chars@.subrange(lo as int, hi as int);
    let nl = find_char(chars, lo, hi, '\n');
    proof {
        assert(forall|j: int| 0 <= j < nl - lo ==> s[j] != '\n');
        lemma_split_on_head(s, '\n', nl - lo);
    }
    let ghost rows = split_on(s, '\n');
    let ghost row = s.take(nl - lo);
    proof {
        if nl == hi {
            assert(row =~= s);
            assert(rows == seq![row]);
        }
        assert(rows[0] == row);
        assert(rows.len() > 0);
        assert(row =~= chars@.subrange(lo as int, nl as int));
    }

    let (tlo, thi) = trim_range(chars, lo, nl, false);
    proof {
        assert(trim(row, false) == chars@.subrange(tlo as int, thi as int));
        assert(0 + (thi - tlo) < i32::MAX);
    }
    match parse_tokens(chars, tlo, thi, 0, y) {
        Err(e) => {
            proof {
                assert(row_entities_from(row_tokens(row), 0, y as int) is None);
                assert(rows_entities_from(rows, y as int) is None);
            }
            Err(e)
        },
        Ok(mut out) => {
            let ghost row_es = models(out@);
            proof {
                assert(row_entities_from(row_tokens(row), 0, y as int) == Some(row_es));
            }
            if nl == hi {
                proof {
                    assert(rows.drop_first() =~= Seq::<Seq<char>>::empty());
                    assert(rows_entities_from(rows.drop_first(), y as int + 1) == Some(
                        Seq::<EntityModel>::empty(),
                    ));
                    assert(rows_entities_from(rows, y as int) == Some(
                        row_es + Seq::<EntityModel>::empty(),
                    ));
                    assert(row_es + Seq::<EntityModel>::empty() =~= row_es);
                }
                return Ok(out);
            }
            let ghost s2 = chars@.subrange(nl + 1, hi as int);
            proof {
                assert(rows == seq![row] + split_on(s.skip(nl - lo + 1), '\n'));
                assert(s.skip(nl - lo + 1) =~= s2);
                assert(rows.drop_first() =~= split_on(s2, '\n'));
                assert(y + 1 + (hi - (nl + 1)) < i32::MAX);
            }
            match parse_rows(chars, nl + 1, hi, y + 1) {
                Ok(mut rest_v) => {
                    let ghost pre_out = out@;
                    let ghost pre_rest = rest_v@;
                    out.append(&mut rest_v);
                    proof {
                        lemma_models_append(pre_out, pre_rest);
                        assert(rows_entities_from(split_on(s2, '\n'), y as int + 1) == Some(
                            models(pre_rest),
                        ));
                        assert(rows_entities_from(rows, y as int) == Some(
                            row_es + models(pre_rest),
                        ));
                        assert(models(out@) == row_es + models(pre_rest));
                    }
                    Ok(out)
                },
                Err(e) => {
                    proof {
                        assert(rows_entities_from(split_on(s2, '\n'), y as int + 1) is None);
                        assert(rows_entities_from(rows, y as int) is None);
                    }
                    Err(e)
                },
            }
        },
    }
}

/// Parses `map_string` and appends the entities it denotes to the game's
/// world, in creation order. On an unrecognized token the whole level is
/// rejected with `MapFormatError` and no entity is created.
pub fn load_level(game: &mut Game, map_string: String) -> (r: Result<(), GameError>)
    requires
        map_string@.len() < i32::MAX,
    ensures
        match parse_map(map_string@) {
            Some(es) => r == Ok::<(), GameError>(()) && models(final(game).world@) == models(
                old(game).world@,
            ) + es && final(game).input_queue == old(game).input_queue,
            None => r == Err::<(), GameError>(GameError::MapFormatError) && *final(game)
                == *old(game),
        },
{
    let chars = str_to_chars(map_string.as_str());
    let (lo, hi) = trim_range(&chars, 0, chars.len(), true);
    proof {
        assert(chars@.subrange(0, chars@.len() as int) =~= chars@);
        assert(trim(chars@, true) == chars@.subrange(lo as int, hi as int));
    }
    match parse_rows(&chars, lo, hi, 0) {
        Ok(mut es) => {
            let ghost pre_world = game.world@;
            let ghost pre_es = es@;
            game.world.append(&mut es);
            proof {
                lemma_models_append(pre_world, pre_es);
            }
            Ok(())
        },
        Err(e) => Err(e),
    }
}

/// The fixed starting level.
pub open spec fn initial_map() -> Seq<char> {
    "
    N N W W W W W W
    W W W . . . . W
    W . . . B . . W
    W . . . . . . W
    W . P . . . . W
    W . . . . . . W
    W . . S . . . W
    W . . . . . . W
    W W W W W W W W
    "@
}

/// Loads the fixed starting level into the game's world.
pub fn initialize_level(game: &mut Game) -> (r: Result<(), GameError>)
    ensures
        match parse_map(initial_map()) {
            Some(es) => r == Ok::<(), GameError>(()) && models(final(game).world@) == models(
                old(game).world@,
            ) + es && final(game).input_queue == old(game).input_queue,
            None => r == Err::<(), GameError>(GameError::MapFormatError) && *final(game)
                == *old(game),
        },
{
    let map = "
    N N W W W W W W
    W W W . . . . W
    W . . . B . . W
    W . . . . . . W
    W . P . . . . W
    W . . . . . . W
    W . . S . . . W
    W . . . . . . W
    W W W W W W W W
    ";
    proof {
        reveal_strlit(
            "
    N N W W W W W W
    W W W . . . . W
    W . . . B . . W
    W . . . . . . W
    W . P . . . . W
    W . . . . . . W
    W . . S . . . W
    W . . . . . . W
    W W W W W W W W
    ",
        );
        assert(map@ == initial_map());
        assert(map@.len() < i32::MAX);
    }
    load_level(game, String::from_str(map))
}

/// Whether some entity of `es` is exactly a Floor at `(x, y)`.
pub open spec fn is_floor_at(es: Seq<EntityModel>, x: int, y: int) -> bool {
    exists|j: int| 0 <= j < es.len() && es[j] == floor_model(x, y)
}

/// The loader invariant: every Wall-tagged entity has a co-located Floor.
pub open spec fn walls_have_floors(es: Seq<EntityModel>) -> bool {
    forall|i: int| 0 <= i < es.len() && es[i].wall ==> is_floor_at(es, es[i].x, es[i].y)
}

proof fn lemma_whf_append(a: Seq<EntityModel>, b: Seq<EntityModel>)
    requires
        walls_have_floors(a),
        walls_have_floors(b),
    ensures
        walls_have_floors(a + b),
{
    assert forall|i: int| 0 <= i < (a + b).len() && (a + b)[i].wall implies is_floor_at(
        a + b,
        (a + b)[i].x,
        (a + b)[i].y,
    ) by {
        if i < a.len() {
            assert(a[i].wall);
            let j = choose|j: int| 0 <= j < a.len() && (#[trigger] a[j]) == floor_model(
                a[i].x,
                a[i].y,
            );
            assert((a + b)[j] == floor_model((a + b)[i].x, (a + b)[i].y));
        } else {
            assert(b[i - a.len()].wall);
            let j = choose|j: int| 0 <= j < b.len() && (#[trigger] b[j]) == floor_model(
                b[i - a.len()].x,
                b[i - a.len()].y,
            );
            assert((a + b)[a.len() + j] == floor_model((a + b)[i].x, (a + b)[i].y));
        }
    }
}

proof fn lemma_cell_whf(tok: Seq<char>, x: int, y: int)
    ensures
        cell_entities(tok, x, y) matches Some(es) ==> walls_have_floors(es),
{
    if cell_entities(tok, x, y) is Some {
        let es = cell_entities(tok, x, y)->Some_0;
        assert forall|i: int| 0 <= i < es.len() && es[i].wall implies is_floor_at(
            es,
            es[i].x,
            es[i].y,
        ) by {
            assert(tok[0] == 'W' && i == 1);
            assert(es[0] == floor_model(es[i].x, es[i].y));
        }
    }
}

proof fn lemma_row_whf(toks: Seq<Seq<char>>, x: int, y: int)
    ensures
        row_entities_from(toks, x, y) matches Some(es) ==> walls_have_floors(es),
    decreases toks.len(),
{
    if toks.len() > 0 && row_entities_from(toks, x, y) is Some {
        lemma_cell_whf(toks[0], x, y);
        lemma_row_whf(toks.drop_first(), x + 1, y);
        let es = cell_entities(toks[0], x, y)->Some_0;
        let rest = row_entities_from(toks.drop_first(), x + 1, y)->Some_0;
        lemma_whf_append(es, rest);
    }
}

proof fn lemma_rows_whf(rows: Seq<Seq<char>>, y: int)
    ensures
        rows_entities_from(rows, y) matches Some(es) ==> walls_have_floors(es),
    decreases rows.len(),
{
    if rows.len() > 0 && rows_entities_from(rows, y) is Some {
        lemma_row_whf(row_tokens(rows[0]), 0, y);
        lemma_rows_whf(rows.drop_first(), y + 1);
        let es = row_entities_from(row_tokens(rows[0]), 0, y)->Some_0;
        let rest = rows_entities_from(rows.drop_first(), y + 1)->Some_0;
        lemma_whf_append(es, rest);
    }
}

/// Loader invariant: whatever the map text, every Wall-tagged entity of a
/// successfully loaded level has a co-located Floor entity.
pub proof fn lemma_loader_walls_have_floors(s: Seq<char>)
    ensures
        parse_map(s) matches Some(es) ==> walls_have_floors(es),
{
    lemma_rows_whf(split_on(trim(s, true), '\n'), 0);
}

} // verus!
