use vstd::prelude::*;
use vstd::string::*;
use crate::models::Direction;

verus! {

/// The direction that a key steers in. Keys are given in lower case: `a` and
/// `arrowleft` steer left, `w` and `arrowup` up, `s` and `arrowdown` down, `d`
/// and `arrowright` right. Other keys steer nowhere.
pub open spec fn bound_direction(key: Seq<char>) -> Option<Direction> {
    if key == "a"@ || key == "arrowleft"@ {
        Some(Direction::Left)
    } else if key == "w"@ || key == "arrowup"@ {
        Some(Direction::Up)
    } else if key == "s"@ || key == "arrowdown"@ {
        Some(Direction::Down)
    } else if key == "d"@ || key == "arrowright"@ {
        Some(Direction::Right)
    } else {
        None
    }
}

/// Entry `i` is the first of `map` whose key is `key`.
pub open spec fn is_first_binding(map: Seq<(String, Direction)>, key: Seq<char>, i: int) -> bool {
    &&& 0 <= i < map.len()
    &&& map[i].0@ == key
    &&& forall|j: int| 0 <= j < i ==> (#[trigger] map[j]).0@ != key
}

/// Whether two strings hold the same characters.
pub fn same_text(a: &str, b: &str) -> (r: bool)
    ensures
        r == (a@ == b@),
{
    let n = a.unicode_len();
    if n != b.unicode_len() {
        return false;
    }
    let mut i: usize = 0;
    while i < n
        invariant
            i <= n,
            n == a@.len(),
            n == b@.len(),
            forall|j: int| 0 <= j < i ==> a@[j] == b@[j],
        decreases n - i,
    {
        if a.get_char(i) != b.get_char(i) {
            return false;
        }
        i += 1;
    }
    assert(a@ =~= b@);
    true
}

/// The key bindings, as pairs of a key and the direction it steers in.
pub fn create_key_direction_map() -> (map: Vec<(String, Direction)>)
    ensures
        map@.len() == 8,
        map@[0].0@ == "a"@ && map@[0].1 == Direction::Left,
        map@[1].0@ == "arrowleft"@ && map@[1].1 == Direction::Left,
        map@[2].0@ == "w"@ && map@[2].1 == Direction::Up,
        map@[3].0@ == "arrowup"@ && map@[3].1 == Direction::Up,
        map@[4].0@ == "s"@ && map@[4].1 == Direction::Down,
        map@[5].0@ == "arrowdown"@ && map@[5].1 == Direction::Down,
        map@[6].0@ == "d"@ && map@[6].1 == Direction::Right,
        map@[7].0@ == "arrowright"@ && map@[7].1 == Direction::Right,
        forall|key: Seq<char>, i: int| #[trigger]
            is_first_binding(map@, key, i) ==> bound_direction(key) == Some(map@[i].1),
        forall|key: Seq<char>|
            bound_direction(key) is Some ==> exists|i: int| #[trigger]
                is_first_binding(map@, key, i),
{
    let mut map: Vec<(String, Direction)> = Vec::new();
    map.push(("a".to_owned(), Direction::Left));
    map.push(("arrowleft".to_owned(), Direction::Left));
    map.push(("w".to_owned(), Direction::Up));
    map.push(("arrowup".to_owned(), Direction::Up));
    map.push(("s".to_owned(), Direction::Down));
    map.push(("arrowdown".to_owned(), Direction::Down));
    map.push(("d".to_owned(), Direction::Right));
    map.push(("arrowright".to_owned(), Direction::Right));
    proof {
        assert forall|key: Seq<char>, i: int| #[trigger]
            is_first_binding(map@, key, i) implies bound_direction(key) == Some(map@[i].1) by {
            assert(map@[0].0@ != key || i == 0);
            assert(map@[1].0@ != key || i <= 1);
            assert(map@[2].0@ != key || i <= 2);
            assert(map@[3].0@ != key || i <= 3);
            assert(map@[4].0@ != key || i <= 4);
            assert(map@[5].0@ != key || i <= 5);
            assert(map@[6].0@ != key || i <= 6);
        }
        assert forall|key: Seq<char>| bound_direction(key) is Some implies exists|i: int| #[trigger]
            is_first_binding(map@, key, i) by {
            if key == "a"@ {
                assert(map@[0].0@ == key);
            } else if key == "arrowleft"@ {
                assert(map@[1].0@ == key);
            } else if key == "w"@ {
                assert(map@[2].0@ == key);
            } else if key == "arrowup"@ {
                assert(map@[3].0@ == key);
            } else if key == "s"@ {
                assert(map@[4].0@ == key);
            } else if key == "arrowdown"@ {
                assert(map@[5].0@ == key);
            } else if key == "d"@ {
                assert(map@[6].0@ == key);
            } else {
                assert(map@[7].0@ == key);
            }
            lemma_first_binding_exists(map@, key, 8);
        }
    }
    map
}

/// Among the first `n` entries of `map`, one with the key `key` means there is
/// a first one.
pub proof fn lemma_first_binding_exists(map: Seq<(String, Direction)>, key: Seq<char>, n: int)
    requires
        0 <= n <= map.len(),
        exists|j: int| 0 <= j < n && (#[trigger] map[j]).0@ == key,
    ensures
        exists|i: int| #[trigger] is_first_binding(map, key, i),
    decreases n,
{
    let j = choose|j: int| 0 <= j < n && (#[trigger] map[j]).0@ == key;
    if exists|k: int| 0 <= k < j && (#[trigger] map[k]).0@ == key {
        lemma_first_binding_exists(map, key, j);
    } else {
        assert(is_first_binding(map, key, j));
    }
}

/// Looks `key` up in a list of key bindings: the direction of the first
/// entry with that key.
pub fn lookup_key(map: &Vec<(String, Direction)>, key: &str) -> (found: Option<Direction>)
    ensures
        found matches Some(d) ==> exists|i: int| #[trigger]
            is_first_binding(map@, key@, i) && d == map@[i].1,
        found is None ==> forall|i: int| 0 <= i < map@.len() ==> (#[trigger] map@[i]).0@ != key@,
{
    let mut i: usize = 0;
    while i < map.len()
        invariant
            i <= map.len(),
            forall|j: int| 0 <= j < i ==> (#[trigger] map@[j]).0@ != key@,
        decreases map.len() - i,
    {
        if same_text(map[i].0.as_str(), key) {
            assert(is_first_binding(map@, key@, i as int));
            return Some(map[i].1);
        }
        i += 1;
    }
    None
}

/// The direction that `key` steers in.
pub fn direction_for_key(key: &str) -> (found: Option<Direction>)
    ensures
        found == bound_direction(key@),
{
    let map = create_key_direction_map();
    let found = lookup_key(&map, key);
    proof {
        if bound_direction(key@) is Some {
            let i = choose|i: int| #[trigger] is_first_binding(map@, key@, i);
            assert(is_first_binding(map@, key@, i));
        }
        if found is Some {
            let i = choose|i: int| #[trigger]
                is_first_binding(map@, key@, i) && found.unwrap() == map@[i].1;
            assert(is_first_binding(map@, key@, i));
        }
    }
    found
}

} // verus!
