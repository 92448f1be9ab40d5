use vstd::prelude::*;
use crate::option_vec::{OptionVec, freed_at};
use crate::collision::{le_u32, read_le_u32};

verus! {

/// A set of options that a group of radio buttons chooses from.
pub trait RadioOption: Sized {
    /// The option chosen when nothing else is.
    spec fn spec_default_option() -> Self;

    /// Whether two options are the same.
    fn same_option(&self, other: &Self) -> (b: bool)
        ensures
            b == (*self == *other),
    ;

    /// The option chosen when nothing else is.
    fn default_option() -> (r: Self)
        ensures
            r == Self::spec_default_option(),
    ;
}

/// A radio option was clicked: the flag takes the option's value, or goes back
/// to the default when it already had that value. Without a click nothing changes.
pub fn do_radio_button<F: RadioOption>(clicked: bool, flag: &mut F, new_flag: F)
    ensures
        *final(flag) == (if !clicked {
            *old(flag)
        } else if *old(flag) != new_flag {
            new_flag
        } else {
            F::spec_default_option()
        }),
{
    if clicked {
        if !flag.same_option(&new_flag) {
            *flag = new_flag;
        } else {
            *flag = F::default_option();
        }
    }
}

/// The slots after freeing each listed index in turn.
pub open spec fn freed_all<T>(s: Seq<Option<T>>, indices: Seq<usize>) -> Seq<Option<T>>
    decreases indices.len(),
{
    if indices.len() == 0 {
        s
    } else {
        freed_at(freed_all(s, indices.drop_last()), indices.last() as int)
    }
}

/// Freeing listed slots empties every listed slot that exists and leaves
/// every other slot, and the number of slots, as they were.
pub proof fn law_listed_slots_freed<T>(s: Seq<Option<T>>, indices: Seq<usize>)
    ensures
        freed_all(s, indices).len() == s.len(),
        forall|j: int|
            0 <= j < indices.len() && indices[j] < s.len() ==> (#[trigger] freed_all(
                s,
                indices,
            )[indices[j] as int]) is None,
        forall|k: int|
            0 <= k < s.len() && (forall|j: int| 0 <= j < indices.len() ==> indices[j] as int != k)
                ==> #[trigger] freed_all(s, indices)[k] == s[k],
    decreases indices.len(),
{
    if indices.len() > 0 {
        let d = indices.drop_last();
        law_listed_slots_freed(s, d);
        let prev = freed_all(s, d);
        let last = indices.last() as int;
        let r = freed_all(s, indices);
        assert(r == freed_at(prev, last));
        assert forall|j: int|
            0 <= j < indices.len() && indices[j] < s.len() implies (#[trigger] r[indices[j] as int]) is None by {
            if j < indices.len() - 1 {
                assert(indices[j] == d[j]);
                assert(prev[d[j] as int] is None);
            }
        }
        assert forall|k: int|
            0 <= k < s.len() && (forall|j: int| 0 <= j < indices.len() ==> indices[j] as int != k)
            implies #[trigger] r[k] == s[k] by {
            assert forall|j: int| 0 <= j < d.len() implies d[j] as int != k by {
                assert(d[j] == indices[j]);
            }
            assert(indices[indices.len() - 1] as int != k);
        }
    }
}

/// Frees every listed slot and empties the list, as when a level's terrain
/// pieces are unloaded.
pub fn delete_all_indexed<T>(entities: &mut OptionVec<T>, indices: &mut Vec<usize>)
    ensures
        final(entities)@ == freed_all(old(entities)@, old(indices)@),
        final(entities)@.len() == old(entities)@.len(),
        forall|j: int|
            0 <= j < old(indices)@.len() && old(indices)@[j] < old(entities)@.len()
                ==> (#[trigger] final(entities)@[old(indices)@[j] as int]) is None,
        forall|k: int|
            0 <= k < old(entities)@.len() && (forall|j: int|
                0 <= j < old(indices)@.len() ==> old(indices)@[j] as int != k)
                ==> #[trigger] final(entities)@[k] == old(entities)@[k],
        final(indices)@ == Seq::<usize>::empty(),
{
    proof {
        law_listed_slots_freed(old(entities)@, old(indices)@);
    }
    let mut i: usize = 0;
    while i < indices.len()
        invariant
            i <= indices@.len(),
            indices@ == old(indices)@,
            entities@ == freed_all(old(entities)@, indices@.take(i as int)),
        decreases indices@.len() - i,
    {
        proof {
            assert(indices@.take(i as int + 1).drop_last() =~= indices@.take(i as int));
        }
        entities.delete(indices[i]);
        i = i + 1;
    }
    proof {
        assert(indices@.take(i as int) =~= indices@);
    }
    indices.clear();
}

/// The names of the readable directory entries, in order.
pub open spec fn readable_names(entries: Seq<Option<String>>) -> Seq<Seq<char>>
    decreases entries.len(),
{
    if entries.len() == 0 {
        Seq::empty()
    } else {
        let rest = readable_names(entries.drop_last());
        match entries.last() {
            Some(name) => rest.push(name@),
            None => rest,
        }
    }
}

/// Position among all directory entries, unreadable ones included, of the
/// last entry named `name`; 0 when there is none.
pub open spec fn last_named(entries: Seq<Option<String>>, name: Seq<char>) -> int
    decreases entries.len(),
{
    if entries.len() == 0 {
        0
    } else if entries.last() matches Some(n) && n@ == name {
        entries.len() - 1
    } else {
        last_named(entries.drop_last(), name)
    }
}

/// The entry is readable and has the name `name`.
pub open spec fn entry_named(e: Option<String>, name: Seq<char>) -> bool {
    e matches Some(n) && n@ == name
}

/// The active skybox position names the last entry called `name`; when no
/// entry has that name it is 0.
pub proof fn law_active_skybox_is_last_match(entries: Seq<Option<String>>, name: Seq<char>)
    ensures
        last_named(entries, name) == 0 || (0 <= last_named(entries, name) < entries.len()
            && entry_named(entries[last_named(entries, name)], name)),
        forall|j: int|
            last_named(entries, name) < j < entries.len() ==> !entry_named(
                #[trigger] entries[j],
                name,
            ),
        (exists|j: int| 0 <= j < entries.len() && entry_named(#[trigger] entries[j], name))
            ==> entry_named(entries[last_named(entries, name)], name),
        (forall|j: int| 0 <= j < entries.len() ==> !entry_named(#[trigger] entries[j], name))
            ==> last_named(entries, name) == 0,
    decreases entries.len(),
{
    if entries.len() > 0 {
        let d = entries.drop_last();
        law_active_skybox_is_last_match(d, name);
        assert forall|j: int| 0 <= j < d.len() implies #[trigger] entries[j] == d[j] by {}
        if !entry_named(entries.last(), name) {
            assert(last_named(entries, name) == last_named(d, name));
            if exists|j: int| 0 <= j < entries.len() && entry_named(#[trigger] entries[j], name) {
                let j = choose|j: int| 0 <= j < entries.len() && entry_named(#[trigger] entries[j], name);
                assert(j < d.len());
                assert(entry_named(d[j], name));
            }
            if forall|j: int| 0 <= j < entries.len() ==> !entry_named(#[trigger] entries[j], name) {
                assert forall|j: int| 0 <= j < d.len() implies !entry_named(#[trigger] d[j], name) by {
                    assert(entries[j] == d[j]);
                }
            }
        }
    }
}

/// The readable names of two listings one after the other are those of the
/// first followed by those of the second.
pub proof fn law_readable_names_concat(a: Seq<Option<String>>, b: Seq<Option<String>>)
    ensures
        readable_names(a + b) == readable_names(a) + readable_names(b),
    decreases b.len(),
{
    if b.len() == 0 {
        assert(a + b =~= a);
        assert(readable_names(a) + readable_names(b) =~= readable_names(a));
    } else {
        law_readable_names_concat(a, b.drop_last());
        assert((a + b).drop_last() =~= a + b.drop_last());
        assert((a + b).last() == b.last());
        match b.last() {
            Some(n) => {
                assert(readable_names(a + b) =~= readable_names(a) + readable_names(b));
            },
            None => {
                assert(readable_names(a + b) =~= readable_names(a) + readable_names(b));
            },
        }
    }
}

/// An unreadable entry contributes no name, and a readable one contributes
/// exactly its own name; so the names are the readable entries' names, in order.
pub proof fn law_readable_names_entries(s: String)
    ensures
        readable_names(seq![None::<String>]) == Seq::<Seq<char>>::empty(),
        readable_names(seq![Some(s)]) == seq![s@],
        readable_names(Seq::<Option<String>>::empty()) == Seq::<Seq<char>>::empty(),
{
    let e = Seq::<Option<String>>::empty();
    assert(readable_names(e) == Seq::<Seq<char>>::empty());
    let one_none = seq![None::<String>];
    assert(one_none.drop_last() =~= e);
    assert(one_none.last() == None::<String>);
    assert(readable_names(one_none) == readable_names(one_none.drop_last()));
    let one = seq![Some(s)];
    assert(one.drop_last() =~= e);
    assert(one.last() == Some(s));
    assert(readable_names(one) == readable_names(one.drop_last()).push(s@));
    assert(Seq::<Seq<char>>::empty().push(s@) =~= seq![s@]);
}

/// From a listing of the skybox directory (`None` for an entry that could
/// not be read): the readable names, and the position of the entry named
/// `skybox_name`, counted over all entries.
pub fn scan_skybox_entries(entries: &Vec<Option<String>>, skybox_name: &str) -> (r: (
    Vec<String>,
    usize,
))
    ensures
        r.0@.map_values(|s: String| s@) == readable_names(entries@),
        r.1 == last_named(entries@, skybox_name@),
        r.1 == 0 || (r.1 < entries@.len() && entry_named(entries@[r.1 as int], skybox_name@)),
        forall|j: int|
            r.1 < j < entries@.len() ==> !entry_named(#[trigger] entries@[j], skybox_name@),
        (forall|j: int| 0 <= j < entries@.len() ==> !entry_named(#[trigger] entries@[j], skybox_name@))
            ==> r.1 == 0,
{
    proof {
        law_active_skybox_is_last_match(entries@, skybox_name@);
    }
    let target = String::from_str(skybox_name);
    let mut names: Vec<String> = Vec::new();
    let mut active: usize = 0;
    let mut i: usize = 0;
    while i < entries.len()
        invariant
            i <= entries@.len(),
            target@ == skybox_name@,
            names@.map_values(|s: String| s@) == readable_names(entries@.take(i as int)),
            active == last_named(entries@.take(i as int), skybox_name@),
        decreases entries@.len() - i,
    {
        let ghost pre = entries@.take(i as int);
        proof {
            assert(entries@.take(i as int + 1).drop_last() =~= pre);
            assert(entries@.take(i as int + 1).last() == entries@[i as int]);
        }
        match &entries[i] {
            Some(name) => {
                if *name == target {
                    active = i;
                }
                let ghost before = names@;
                names.push(name.clone());
                assert(names@.map_values(|s: String| s@) =~= before.map_values(
                    |s: String| s@,
                ).push(name@));
            },
            None => {},
        }
        i = i + 1;
    }
    proof {
        assert(entries@.take(i as int) =~= entries@);
    }
    (names, active)
}

/// Byte offset of the creature count in the body of an entity file (after
/// the skybox name): twelve header words come first.
pub open spec fn ent_creature_header() -> int {
    48
}

/// Number of creature records in an entity-file body.
pub open spec fn ent_creature_count(b: Seq<u8>) -> int {
    le_u32(b, ent_creature_header()) as int
}

/// Byte offset of the light count: after the creature count and the
/// creature records of four words each.
pub open spec fn ent_light_header(b: Seq<u8>) -> int {
    ent_creature_header() + 4 + 16 * ent_creature_count(b)
}

/// Number of light records in an entity-file body.
pub open spec fn ent_light_count(b: Seq<u8>) -> int {
    le_u32(b, ent_light_header(b)) as int
}

/// The body of an entity file: twelve little-endian header words (ambient
/// strength, sun pitch and yaw, sun colour, shininess bounds, sun size, player
/// spawn), a count and that many four-word creature records (position and
/// scale), a count and that many seven-word light records (position, colour,
/// power). Bytes after the lights are ignored.
pub open spec fn ent_well_formed(b: Seq<u8>) -> bool {
    &&& b.len() >= ent_creature_header() + 4
    &&& b.len() >= ent_light_header(b) + 4
    &&& b.len() >= ent_light_header(b) + 4 + 28 * ent_light_count(b)
}

/// The words of an entity-file body, each float kept as its bit pattern.
pub struct EntBody {
    pub header_bits: Vec<u32>,
    pub creature_bits: Vec<u32>,
    pub light_bits: Vec<u32>,
}

/// Reads `count` little-endian words starting at byte `start`.
fn read_words(b: &[u8], start: usize, count: usize) -> (r: Vec<u32>)
    requires
        start + 4 * count <= b@.len(),
    ensures
        r@.len() == count,
        forall|k: int| 0 <= k < count ==> #[trigger] r@[k] == le_u32(b@, start + 4 * k),
{
    let mut r: Vec<u32> = Vec::with_capacity(count);
    let blen = b.len();
    let mut k: usize = 0;
    while k < count
        invariant
            blen == b@.len(),
            k <= count,
            start + 4 * count <= b@.len(),
            r@.len() == k,
            forall|j: int| 0 <= j < k ==> #[trigger] r@[j] == le_u32(b@, start + 4 * j),
        decreases count - k,
    {
        assert(4 * k + 4 <= 4 * count) by (nonlinear_arith)
            requires
                k < count,
        ;
        r.push(read_le_u32(b, start + 4 * k));
        k = k + 1;
    }
    r
}

/// Reads the body of an entity file; `None` exactly when it is not well formed.
pub fn parse_ent_body(b: &[u8]) -> (r: Option<EntBody>)
    ensures
        r is Some <==> ent_well_formed(b@),
        r matches Some(e) ==> {
            &&& e.header_bits@.len() == 12
            &&& forall|k: int| 0 <= k < 12 ==> #[trigger] e.header_bits@[k] == le_u32(b@, 4 * k)
            &&& e.creature_bits@.len() == 4 * ent_creature_count(b@)
            &&& forall|k: int|
                0 <= k < e.creature_bits@.len() ==> #[trigger] e.creature_bits@[k] == le_u32(
                    b@,
                    ent_creature_header() + 4 + 4 * k,
                )
            &&& e.light_bits@.len() == 7 * ent_light_count(b@)
            &&& forall|k: int|
                0 <= k < e.light_bits@.len() ==> #[trigger] e.light_bits@[k] == le_u32(
                    b@,
                    ent_light_header(b@) + 4 + 4 * k,
                )
        },
{
    let len = b.len();
    if len < 52 {
        return None;
    }
    let creatures = read_le_u32(b, 48) as usize;
    if creatures > (len - 52) / 16 || len - 52 - 16 * creatures < 4 {
        return None;
    }
    let light_header = 52 + 16 * creatures;
    let lights = read_le_u32(b, light_header) as usize;
    if lights > (len - light_header - 4) / 28 {
        return None;
    }
    let header_bits = read_words(b, 0, 12);
    let creature_bits = read_words(b, 52, 4 * creatures);
    let light_bits = read_words(b, light_header + 4, 7 * lights);
    Some(EntBody { header_bits, creature_bits, light_bits })
}

/// The four little-endian bytes of `w`.
pub open spec fn le_bytes(w: u32) -> Seq<u8> {
    seq![(w % 256) as u8, ((w / 256) % 256) as u8, ((w / 65536) % 256) as u8, (w / 16777216) as u8]
}

/// Appends the four little-endian bytes of `w`.
fn push_le_u32(bytes: &mut Vec<u8>, w: u32)
    ensures
        final(bytes)@ == old(bytes)@ + le_bytes(w),
{
    bytes.push((w % 256) as u8);
    bytes.push(((w / 256) % 256) as u8);
    bytes.push(((w / 65536) % 256) as u8);
    bytes.push((w / 16777216) as u8);
    assert(bytes@ =~= old(bytes)@ + le_bytes(w));
}

/// Bytes written for a word read back as that word.
pub proof fn law_le_bytes_read_back(pre: Seq<u8>, w: u32, post: Seq<u8>)
    ensures
        le_u32(pre + le_bytes(w) + post, pre.len() as int) == w,
{
    let b = pre + le_bytes(w) + post;
    let n = pre.len() as int;
    assert(b[n] == (w % 256) as u8);
    assert(b[n + 1] == ((w / 256) % 256) as u8);
    assert(b[n + 2] == ((w / 65536) % 256) as u8);
    assert(b[n + 3] == (w / 16777216) as u8);
    assert((w % 256) + 256 * ((w / 256) % 256) + 65536 * ((w / 65536) % 256) + 16777216 * (w
        / 16777216) == w) by (nonlinear_arith);
}

/// The body that the level editor saves: nine header words (ambient strength,
/// sun pitch and yaw, sun colour, player spawn), the number of creatures, then
/// each creature's home position and scale. Lights are not saved.
pub open spec fn ent_save_words(header: Seq<u32>, creatures: Seq<(u32, u32, u32, u32)>) -> Seq<u32> {
    header.push(creatures.len() as u32) + Seq::new(
        4 * creatures.len(),
        |k: int|
            {
                let c = creatures[k / 4];
                if k % 4 == 0 {
                    c.0
                } else if k % 4 == 1 {
                    c.1
                } else if k % 4 == 2 {
                    c.2
                } else {
                    c.3
                }
            },
    )
}

/// The little-endian bytes of a sequence of words.
pub open spec fn words_bytes(ws: Seq<u32>) -> Seq<u8>
    decreases ws.len(),
{
    if ws.len() == 0 {
        Seq::empty()
    } else {
        words_bytes(ws.drop_last()) + le_bytes(ws.last())
    }
}

/// Reading the bytes of a word sequence four at a time gives the words back.
pub proof fn law_words_bytes_read_back(ws: Seq<u32>, k: int)
    requires
        0 <= k < ws.len(),
    ensures
        words_bytes(ws).len() == 4 * ws.len(),
        le_u32(words_bytes(ws), 4 * k) == ws[k],
    decreases ws.len(),
{
    let d = ws.drop_last();
    lemma_words_bytes_len(d);
    if k == ws.len() - 1 {
        law_le_bytes_read_back(words_bytes(d), ws.last(), Seq::empty());
        assert(words_bytes(d) + le_bytes(ws.last()) + Seq::<u8>::empty() =~= words_bytes(ws));
    } else {
        law_words_bytes_read_back(d, k);
        let w = words_bytes(ws);
        let wd = words_bytes(d);
        assert forall|j: int| 0 <= j < wd.len() implies #[trigger] w[j] == wd[j] by {}
        assert(w[4 * k] == wd[4 * k]);
        assert(w[4 * k + 1] == wd[4 * k + 1]);
        assert(w[4 * k + 2] == wd[4 * k + 2]);
        assert(w[4 * k + 3] == wd[4 * k + 3]);
    }
}

/// A word of a word sequence reads back from its bytes, whatever follows them.
pub proof fn law_words_read_back_before_rest(ws: Seq<u32>, rest: Seq<u8>, k: int)
    requires
        0 <= k < ws.len(),
    ensures
        le_u32(words_bytes(ws) + rest, 4 * k) == ws[k],
        (words_bytes(ws) + rest).len() == 4 * ws.len() + rest.len(),
{
    law_words_bytes_read_back(ws, k);
    let w = words_bytes(ws);
    let b = w + rest;
    assert(b[4 * k] == w[4 * k]);
    assert(b[4 * k + 1] == w[4 * k + 1]);
    assert(b[4 * k + 2] == w[4 * k + 2]);
    assert(b[4 * k + 3] == w[4 * k + 3]);
}

/// A body laid out as twelve header words, a creature count `c`, `4c`
/// creature words, a light count `m` and `7m` light words (then anything) is
/// well formed, whatever the counts, none included, and reads back as exactly
/// those words.
pub proof fn law_ent_body_layout(
    header: Seq<u32>,
    c: u32,
    creatures: Seq<u32>,
    m: u32,
    lights: Seq<u32>,
    rest: Seq<u8>,
)
    requires
        header.len() == 12,
        creatures.len() == 4 * c,
        lights.len() == 7 * m,
    ensures
        ({
            let b = words_bytes(header.push(c) + creatures.push(m) + lights) + rest;
            &&& ent_well_formed(b)
            &&& ent_creature_count(b) == c
            &&& ent_light_header(b) == 52 + 16 * c
            &&& ent_light_count(b) == m
            &&& forall|k: int| 0 <= k < 12 ==> #[trigger] le_u32(b, 4 * k) == header[k]
            &&& forall|k: int|
                0 <= k < creatures.len() ==> #[trigger] le_u32(b, 52 + 4 * k) == creatures[k]
            &&& forall|k: int|
                0 <= k < lights.len() ==> #[trigger] le_u32(b, 56 + 16 * c + 4 * k) == lights[k]
        }),
{
    let ws = header.push(c) + creatures.push(m) + lights;
    let b = words_bytes(ws) + rest;
    let nc = 4 * c as int;
    assert(ws.len() == 14 + nc + 7 * m);
    assert(ws[12] == c);
    law_words_read_back_before_rest(ws, rest, 12);
    assert(ws[13 + nc] == m);
    law_words_read_back_before_rest(ws, rest, 13 + nc);
    assert(4 * (13 + nc) == 52 + 16 * c);
    assert(ent_creature_count(b) == c);
    assert forall|k: int| 0 <= k < 12 implies #[trigger] le_u32(b, 4 * k) == header[k] by {
        law_words_read_back_before_rest(ws, rest, k);
    }
    assert forall|k: int| 0 <= k < creatures.len() implies #[trigger] le_u32(b, 52 + 4 * k)
        == creatures[k] by {
        assert(ws[13 + k] == creatures[k]);
        law_words_read_back_before_rest(ws, rest, 13 + k);
    }
    assert forall|k: int| 0 <= k < lights.len() implies #[trigger] le_u32(
        b,
        56 + 16 * c + 4 * k,
    ) == lights[k] by {
        assert(ws[14 + nc + k] == lights[k]);
        law_words_read_back_before_rest(ws, rest, 14 + nc + k);
        assert(4 * (14 + nc + k) == 56 + 16 * c + 4 * k);
    }
}

/// The four little-endian words of the 16-byte record at byte `at`.
pub open spec fn le_quad(b: Seq<u8>, at: int) -> (u32, u32, u32, u32) {
    (le_u32(b, at), le_u32(b, at + 4), le_u32(b, at + 8), le_u32(b, at + 12))
}

/// The saved body is nine header words, the creature count, then each
/// creature's four fields in order (x, y, z, scale), as little-endian words.
pub proof fn law_ent_save_layout(header: Seq<u32>, creatures: Seq<(u32, u32, u32, u32)>)
    requires
        header.len() == 9,
    ensures
        ({
            let b = words_bytes(ent_save_words(header, creatures));
            &&& b.len() == 40 + 16 * creatures.len()
            &&& forall|k: int| 0 <= k < 9 ==> #[trigger] le_u32(b, 4 * k) == header[k]
            &&& le_u32(b, 36) == creatures.len() as u32
            &&& forall|k: int|
                0 <= k < creatures.len() ==> #[trigger] le_quad(b, 40 + 16 * k) == creatures[k]
        }),
{
    let ws = ent_save_words(header, creatures);
    let b = words_bytes(ws);
    let e = Seq::<u8>::empty();
    assert(b + e =~= b);
    assert(ws.len() == 10 + 4 * creatures.len());
    lemma_words_bytes_len(ws);
    assert forall|k: int| 0 <= k < 9 implies #[trigger] le_u32(b, 4 * k) == header[k] by {
        law_words_read_back_before_rest(ws, e, k);
    }
    law_words_read_back_before_rest(ws, e, 9);
    assert forall|k: int| 0 <= k < creatures.len() implies #[trigger] le_quad(b, 40 + 16 * k)
        == creatures[k] by {
        assert((4 * k) / 4 == k && (4 * k) % 4 == 0) by (nonlinear_arith)
            requires
                0 <= k,
        ;
        assert((4 * k + 1) / 4 == k && (4 * k + 1) % 4 == 1) by (nonlinear_arith)
            requires
                0 <= k,
        ;
        assert((4 * k + 2) / 4 == k && (4 * k + 2) % 4 == 2) by (nonlinear_arith)
            requires
                0 <= k,
        ;
        assert((4 * k + 3) / 4 == k && (4 * k + 3) % 4 == 3) by (nonlinear_arith)
            requires
                0 <= k,
        ;
        assert(4 * k + 3 < 4 * creatures.len()) by (nonlinear_arith)
            requires
                0 <= k < creatures.len(),
        ;
        law_words_read_back_before_rest(ws, e, 10 + 4 * k);
        law_words_read_back_before_rest(ws, e, 11 + 4 * k);
        law_words_read_back_before_rest(ws, e, 12 + 4 * k);
        law_words_read_back_before_rest(ws, e, 13 + 4 * k);
        assert(ws[10 + 4 * k] == creatures[k].0);
        assert(ws[11 + 4 * k] == creatures[k].1);
        assert(ws[12 + 4 * k] == creatures[k].2);
        assert(ws[13 + 4 * k] == creatures[k].3);
    }
}

proof fn lemma_words_bytes_len(ws: Seq<u32>)
    ensures
        words_bytes(ws).len() == 4 * ws.len(),
    decreases ws.len(),
{
    if ws.len() > 0 {
        lemma_words_bytes_len(ws.drop_last());
    }
}

fn push_words(bytes: &mut Vec<u8>, ws: &Vec<u32>)
    ensures
        final(bytes)@ == old(bytes)@ + words_bytes(ws@),
{
    let mut i: usize = 0;
    while i < ws.len()
        invariant
            i <= ws@.len(),
            bytes@ == old(bytes)@ + words_bytes(ws@.take(i as int)),
        decreases ws@.len() - i,
    {
        let ghost before = bytes@;
        push_le_u32(bytes, ws[i]);
        assert(ws@.take(i as int + 1).drop_last() =~= ws@.take(i as int));
        assert(bytes@ =~= old(bytes)@ + words_bytes(ws@.take(i as int + 1)));
        i = i + 1;
    }
    assert(ws@.take(i as int) =~= ws@);
}

/// The bytes of the entity-file body that the level editor saves.
pub fn ent_save_bytes(header: &Vec<u32>, creatures: &Vec<(u32, u32, u32, u32)>) -> (bytes: Vec<u8>)
    requires
        header@.len() == 9,
    ensures
        bytes@ == words_bytes(ent_save_words(header@, creatures@)),
        bytes@.len() == 40 + 16 * creatures@.len(),
        forall|k: int| 0 <= k < 9 ==> #[trigger] le_u32(bytes@, 4 * k) == header@[k],
        le_u32(bytes@, 36) == creatures@.len() as u32,
        forall|k: int|
            0 <= k < creatures@.len() ==> #[trigger] le_quad(bytes@, 40 + 16 * k) == creatures@[k],
{
    let mut words: Vec<u32> = Vec::new();
    let mut i: usize = 0;
    while i < header.len()
        invariant
            i <= header@.len(),
            words@ == header@.take(i as int),
        decreases header@.len() - i,
    {
        words.push(header[i]);
        i = i + 1;
        assert(words@ =~= header@.take(i as int));
    }
    assert(header@.take(i as int) =~= header@);
    words.push(creatures.len() as u32);
    let ghost head = words@;
    assert(head == header@.push(creatures@.len() as u32));
    let mut k: usize = 0;
    while k < creatures.len()
        invariant
            k <= creatures@.len(),
            head == header@.push(creatures@.len() as u32),
            words@.len() == head.len() + 4 * k,
            words@.subrange(0, head.len() as int) == head,
            forall|j: int|
                0 <= j < 4 * k ==> #[trigger] words@[head.len() + j] == ent_save_words(
                    header@,
                    creatures@,
                )[head.len() + j],
        decreases creatures@.len() - k,
    {
        let c = creatures[k];
        let ghost before = words@;
        words.push(c.0);
        words.push(c.1);
        words.push(c.2);
        words.push(c.3);
        assert forall|j: int| 0 <= j < 4 * (k + 1) implies #[trigger] words@[head.len() + j]
            == ent_save_words(header@, creatures@)[head.len() + j] by {
            if j >= 4 * k {
                assert((j / 4) == k) by (nonlinear_arith)
                    requires
                        4 * k <= j < 4 * k + 4,
                ;
                assert(j % 4 == j - 4 * k) by (nonlinear_arith)
                    requires
                        4 * k <= j < 4 * k + 4,
                ;
            } else {
                assert(words@[head.len() + j] == before[head.len() + j]);
            }
        }
        assert(words@.subrange(0, head.len() as int) =~= head);
        k = k + 1;
    }
    assert(words@ =~= ent_save_words(header@, creatures@)) by {
        assert forall|j: int| 0 <= j < words@.len() implies #[trigger] words@[j] == ent_save_words(
            header@,
            creatures@,
        )[j] by {
            if j < head.len() {
                assert(words@[j] == words@.subrange(0, head.len() as int)[j]);
            } else {
                assert(words@[head.len() + (j - head.len())] == ent_save_words(
                    header@,
                    creatures@,
                )[head.len() + (j - head.len())]);
            }
        }
    }
    let mut bytes: Vec<u8> = Vec::new();
    push_words(&mut bytes, &words);
    assert(bytes@ =~= words_bytes(ent_save_words(header@, creatures@)));
    proof {
        law_ent_save_layout(header@, creatures@);
    }
    bytes
}

} // verus!
