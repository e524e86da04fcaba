//! Compound documents: whether the sectors that one names lie in it.
use vstd::prelude::*;

verus! {

/// Whether bytes begin as those of a compound document with a whole header do.
pub open spec fn is_compound(s: Seq<u8>) -> bool {
    &&& s.len() >= 512
    &&& s[0] == 0xd0
    &&& s[1] == 0xcf
    &&& s[2] == 0x11
    &&& s[3] == 0xe0
    &&& s[4] == 0xa1
    &&& s[5] == 0xb1
    &&& s[6] == 0x1a
    &&& s[7] == 0xe1
}

/// The number of 32 bits at a place, its lowest byte first.
pub open spec fn number_at(s: Seq<u8>, i: int) -> int {
    s[i] + 0x100 * s[i + 1] + 0x1_0000 * s[i + 2] + 0x100_0000 * s[i + 3]
}

/// How many bytes a sector has: 512 or 4096, as the header tells. None where it
/// tells anything else.
pub open spec fn sector_size(s: Seq<u8>) -> int {
    if s[30] == 9 && s[31] == 0 {
        512
    } else if s[30] == 12 && s[31] == 0 {
        4096
    } else {
        0
    }
}

/// Where a sector begins: the header takes the room of one.
pub open spec fn sector_start(size: int, id: int) -> int {
    (id + 1) * size
}

/// Whether a sector lies in the document as a whole.
pub open spec fn is_whole(s: Seq<u8>, size: int, id: int) -> bool {
    sector_start(size, id + 1) <= s.len()
}

/// The numbers from a place on, so many of them.
pub open spec fn numbers_at(s: Seq<u8>, at: int, n: nat) -> Seq<int> {
    Seq::new(n, |i: int| number_at(s, at + 4 * i))
}

/// What further sectors, from one on, have in the places for the sectors of the
/// table of sectors. The last place of each names the next one. None where one
/// does not lie in the document, or there are more than `n` of them.
pub open spec fn further_places(s: Seq<u8>, size: int, id: int, n: nat) -> Option<Seq<int>>
    decreases n,
{
    if id >= 0xffff_fffa {
        Some(Seq::empty())
    } else if n == 0 || !is_whole(s, size, id) {
        None
    } else {
        let at = sector_start(size, id);
        let each = size / 4 - 1;
        match further_places(s, size, number_at(s, at + 4 * each), (n - 1) as nat) {
            Some(rest) => Some(numbers_at(s, at, each as nat) + rest),
            None => None,
        }
    }
}

/// The sectors that some places name.
pub open spec fn named_sectors(places: Seq<int>) -> Seq<int>
    decreases places.len(),
{
    if places.len() == 0 {
        Seq::empty()
    } else {
        let before = named_sectors(places.drop_last());
        if places.last() < 0xffff_fffc {
            before.push(places.last())
        } else {
            before
        }
    }
}

/// How many sectors the table of sectors has a place for.
pub open spec fn table_len(size: int, table: Seq<int>) -> int {
    table.len() * (size / 4)
}

/// The sector behind another, by the table of sectors.
pub open spec fn next_sector(s: Seq<u8>, size: int, table: Seq<int>, id: int) -> int {
    let each = size / 4;
    number_at(s, sector_start(size, table[id / each]) + 4 * (id % each))
}

/// Whether a chain of sectors comes to its end within `n` of them, and all of them
/// lie in the document and have a place in the table.
pub open spec fn chain_ends(s: Seq<u8>, size: int, table: Seq<int>, id: int, n: nat) -> bool
    decreases n,
{
    ||| id == 0xffff_fffe
    ||| {
        &&& n > 0
        &&& is_whole(s, size, id)
        &&& id < table_len(size, table)
        &&& chain_ends(s, size, table, next_sector(s, size, table, id), (n - 1) as nat)
    }
}

/// Whether the sectors of a compound document lie in it: those of the table of
/// sectors, by the places for them, and those of the chains of the directory and
/// of the small streams.
pub open spec fn has_sectors(s: Seq<u8>) -> bool {
    let size = sector_size(s);
    match further_places(s, size, number_at(s, 68), (s.len() / size as nat) as nat) {
        Some(further) => has_chains(s, size, named_sectors(numbers_at(s, 76, 109) + further)),
        None => false,
    }
}

/// Whether the sectors of a table of sectors lie in a compound document, and those
/// of the chains of its directory and of its small streams.
pub open spec fn has_chains(s: Seq<u8>, size: int, table: Seq<int>) -> bool {
    let n = table_len(size, table) as nat;
    let directory = number_at(s, 48);
    &&& forall|k: int| 0 <= k < table.len() ==> is_whole(s, size, #[trigger] table[k])
    &&& chain_ends(s, size, table, directory, n)
    &&& number_at(s, 64) > 0 && directory != 0xffff_fffe ==> {
        &&& chain_ends(s, size, table, number_at(s, 60), n)
        &&& chain_ends(
            s,
            size,
            table,
            number_at(s, sector_start(size, directory) + 116),
            n,
        )
    }
}

/// Whether a compound document is sound: its header is refused as it stands, or its
/// sectors lie in it.
pub open spec fn is_sound_compound(s: Seq<u8>) -> bool {
    ||| sector_size(s) == 0
    ||| s.len() < sector_size(s)
    ||| s[32] != 6
    ||| s[33] != 0
    ||| has_sectors(s)
}

/// Whether bytes begin as those of a compound document do.
pub fn compound(s: &Vec<u8>) -> (r: bool)
    ensures
        r == is_compound(s@),
{
    s.len() >= 512 && s[0] == 0xd0 && s[1] == 0xcf && s[2] == 0x11 && s[3] == 0xe0 && s[4] == 0xa1
        && s[5] == 0xb1 && s[6] == 0x1a && s[7] == 0xe1
}

fn read_number(s: &Vec<u8>, i: usize) -> (r: u64)
    requires
        i + 4 <= s@.len(),
    ensures
        r == number_at(s@, i as int),
        r <= 0xffff_ffff,
{
    let end: usize = s.len();
    assert(i + 4 <= end);
    s[i] as u64 + 0x100 * s[i + 1] as u64 + 0x1_0000 * s[i + 2] as u64 + 0x100_0000 * s[i + 3] as u64
}

/// Where a sector begins that lies in the document.
fn find_start(s: &Vec<u8>, size: u64, id: u64) -> (r: usize)
    requires
        size == 512 || size == 4096,
        id <= 0xffff_ffff,
        is_whole(s@, size as int, id as int),
    ensures
        r == sector_start(size as int, id as int),
        r + size <= s@.len(),
{
    let end: usize = s.len();
    assert(sector_start(size as int, id + 1) == sector_start(size as int, id as int) + size)
        by (nonlinear_arith);
    let start: u64 = if size == 512 {
        (id + 1) * 512
    } else {
        (id + 1) * 4096
    };
    assert(start + size <= end);
    start as usize
}

fn whole(s: &Vec<u8>, size: u64, id: u64) -> (r: bool)
    requires
        size == 512 || size == 4096,
        id <= 0xffff_ffff,
    ensures
        r == is_whole(s@, size as int, id as int),
{
    if size == 512 {
        (id + 2) * 512 <= s.len() as u64
    } else {
        (id + 2) * 4096 <= s.len() as u64
    }
}

/// What a list of sectors is.
pub open spec fn sectors(v: Seq<u64>) -> Seq<int> {
    Seq::new(v.len(), |i: int| v[i] as int)
}

/// Whether the sectors of a table lie in the document.
spec fn all_whole(s: Seq<u8>, size: int, table: Seq<u64>) -> bool {
    forall|k: int|
        0 <= k < table.len() ==> is_whole(s, size, #[trigger] table[k] as int) && table[k]
            <= 0xffff_ffff
}

fn push_numbers(out: &mut Vec<u64>, s: &Vec<u8>, at: usize, n: usize)
    requires
        at + 4 * n <= s@.len(),
        forall|k: int| 0 <= k < old(out)@.len() ==> #[trigger] old(out)@[k] <= 0xffff_ffff,
    ensures
        sectors(final(out)@) == sectors(old(out)@) + numbers_at(s@, at as int, n as nat),
        forall|k: int| 0 <= k < final(out)@.len() ==> #[trigger] final(out)@[k] <= 0xffff_ffff,
{
    let end: usize = s.len();
    assert(at + 4 * n <= end);
    let ghost start = sectors(out@);
    let ghost all = numbers_at(s@, at as int, n as nat);
    assert(start + all.take(0) =~= start);
    let mut i: usize = 0;
    while i < n
        invariant
            i <= n,
            at + 4 * n <= end,
            end == s@.len(),
            all == numbers_at(s@, at as int, n as nat),
            sectors(out@) == start + all.take(i as int),
            forall|k: int| 0 <= k < out@.len() ==> #[trigger] out@[k] <= 0xffff_ffff,
        decreases n - i,
    {
        let ghost before = out@;
        let id: u64 = read_number(s, at + 4 * i);
        out.push(id);
        assert(sectors(out@) =~= sectors(before).push(id as int));
        i += 1;
        assert(all.take(i as int) =~= all.take(i - 1).push(all[i - 1]));
        assert(sectors(out@) =~= start + all.take(i as int));
    }
    assert(all.take(n as int) =~= all);
}

/// The places for the sectors of the table of sectors: those of the header, and
/// those of further sectors.
fn list_places(s: &Vec<u8>, size: u64) -> (r: Option<Vec<u64>>)
    requires
        s@.len() >= 512,
        size == 512 || size == 4096,
    ensures
        match further_places(
            s@,
            size as int,
            number_at(s@, 68),
            (s@.len() / size as nat) as nat,
        ) {
            Some(further) => match r {
                Some(places) => {
                    &&& sectors(places@) == numbers_at(s@, 76, 109) + further
                    &&& forall|k: int|
                        0 <= k < places@.len() ==> #[trigger] places@[k] <= 0xffff_ffff
                },
                None => false,
            },
            None => r is None,
        },
{
    let mut places: Vec<u64> = Vec::new();
    assert(sectors(places@) =~= Seq::empty());
    push_numbers(&mut places, s, 76, 109);
    let ghost start = numbers_at(s@, 76, 109);
    assert(sectors(places@) =~= start);
    let each: usize = if size == 512 {
        127
    } else {
        1023
    };
    let mut left: usize = if size == 512 {
        s.len() / 512
    } else {
        s.len() / 4096
    };
    let mut id: u64 = read_number(s, 68);
    let ghost all = further_places(s@, size as int, id as int, left as nat);
    assert(match all {
        Some(further) => start + further =~= sectors(places@) + further,
        None => true,
    });
    while id < 0xffff_fffa
        invariant
            s@.len() >= 512,
            size == 512 || size == 4096,
            each == size / 4 - 1,
            id <= 0xffff_ffff,
            all == further_places(
                s@,
                size as int,
                number_at(s@, 68),
                (s@.len() / size as nat) as nat,
            ),
            forall|k: int| 0 <= k < places@.len() ==> #[trigger] places@[k] <= 0xffff_ffff,
            match further_places(s@, size as int, id as int, left as nat) {
                Some(rest) => match all {
                    Some(further) => sectors(places@) + rest == start + further,
                    None => false,
                },
                None => all is None,
            },
        decreases left,
    {
        if left == 0 || !whole(s, size, id) {
            return None;
        }
        let at: usize = find_start(s, size, id);
        let ghost before = sectors(places@);
        push_numbers(&mut places, s, at, each);
        let next: u64 = read_number(s, at + 4 * each);
        proof {
            let here = numbers_at(s@, at as int, each as nat);
            if let Some(rest) = further_places(s@, size as int, next as int, (left - 1) as nat) {
                assert(sectors(places@) + rest =~= before + (here + rest));
            }
        }
        id = next;
        left -= 1;
    }
    assert(sectors(places@) + Seq::<int>::empty() =~= sectors(places@));
    Some(places)
}

fn list_named(places: &Vec<u64>) -> (r: Vec<u64>)
    requires
        forall|k: int| 0 <= k < places@.len() ==> #[trigger] places@[k] <= 0xffff_ffff,
    ensures
        sectors(r@) == named_sectors(sectors(places@)),
        forall|k: int| 0 <= k < r@.len() ==> #[trigger] r@[k] <= 0xffff_ffff,
{
    let ghost all = sectors(places@);
    let mut out: Vec<u64> = Vec::new();
    assert(sectors(out@) =~= named_sectors(all.take(0)));
    let mut i: usize = 0;
    while i < places.len()
        invariant
            i <= places@.len(),
            all == sectors(places@),
            forall|k: int| 0 <= k < places@.len() ==> #[trigger] places@[k] <= 0xffff_ffff,
            sectors(out@) == named_sectors(all.take(i as int)),
            forall|k: int| 0 <= k < out@.len() ==> #[trigger] out@[k] <= 0xffff_ffff,
        decreases places.len() - i,
    {
        assert(all.take(i + 1).drop_last() =~= all.take(i as int));
        let id: u64 = places[i];
        if id < 0xffff_fffc {
            let ghost before = out@;
            out.push(id);
            assert(sectors(out@) =~= sectors(before).push(id as int));
        }
        i += 1;
    }
    assert(all.take(all.len() as int) =~= all);
    out
}

fn table_lies_in(s: &Vec<u8>, size: u64, table: &Vec<u64>) -> (r: bool)
    requires
        size == 512 || size == 4096,
        forall|k: int| 0 <= k < table@.len() ==> #[trigger] table@[k] <= 0xffff_ffff,
    ensures
        r == all_whole(s@, size as int, table@),
        r == forall|k: int|
            0 <= k < sectors(table@).len() ==> is_whole(
                s@,
                size as int,
                #[trigger] sectors(table@)[k],
            ),
{
    let mut i: usize = 0;
    while i < table.len()
        invariant
            i <= table@.len(),
            size == 512 || size == 4096,
            forall|k: int| 0 <= k < table@.len() ==> #[trigger] table@[k] <= 0xffff_ffff,
            forall|k: int|
                0 <= k < i ==> is_whole(s@, size as int, #[trigger] table@[k] as int),
        decreases table.len() - i,
    {
        if !whole(s, size, table[i]) {
            assert(!is_whole(s@, size as int, sectors(table@)[i as int]));
            return false;
        }
        i += 1;
    }
    assert forall|k: int| 0 <= k < sectors(table@).len() implies is_whole(
        s@,
        size as int,
        #[trigger] sectors(table@)[k],
    ) by {
        assert(is_whole(s@, size as int, table@[k] as int));
    }
    true
}

fn chain_found(s: &Vec<u8>, size: u64, table: &Vec<u64>, from: u64) -> (r: bool)
    requires
        s@.len() >= 512,
        size == 512 || size == 4096,
        all_whole(s@, size as int, table@),
        from <= 0xffff_ffff,
    ensures
        r == chain_ends(
            s@,
            size as int,
            sectors(table@),
            from as int,
            table_len(size as int, sectors(table@)) as nat,
        ),
{
    let each: u64 = if size == 512 {
        128
    } else {
        1024
    };
    let ghost ids = sectors(table@);
    let count: u128 = table.len() as u128;
    let room: u128 = if size == 512 {
        count * 128
    } else {
        count * 1024
    };
    assert(room == table_len(size as int, ids));
    let mut left: u128 = room;
    let mut id: u64 = from;
    while id != 0xffff_fffe
        invariant
            s@.len() >= 512,
            size == 512 || size == 4096,
            each == size / 4,
            ids == sectors(table@),
            room == table_len(size as int, ids),
            room == count * each,
            count == table@.len(),
                all_whole(s@, size as int, table@),
            id <= 0xffff_ffff,
            chain_ends(s@, size as int, ids, id as int, left as nat) == chain_ends(
                s@,
                size as int,
                ids,
                from as int,
                room as nat,
            ),
        decreases left,
    {
        if left == 0 || !whole(s, size, id) || id as u128 >= room {
            return false;
        }
        let k: usize = (id / each) as usize;
        let at: u64 = id % each;
        assert(id / each < count) by (nonlinear_arith)
            requires
                id < count * each,
                each > 0,
        ;
        let sector: u64 = table[k];
        assert(ids[k as int] == sector);
        assert(is_whole(s@, size as int, table@[k as int] as int));
        let start: usize = find_start(s, size, sector);
        assert(4 * at + 4 <= size);
        id = read_number(s, start + 4 * at as usize);
        left -= 1;
    }
    true
}

fn sectors_found(s: &Vec<u8>, size: u64) -> (r: bool)
    requires
        s@.len() >= size,
        size == 512 || size == 4096,
        size == sector_size(s@),
    ensures
        r == has_sectors(s@),
{
    match list_places(s, size) {
        Some(places) => {
            let table = list_named(&places);
            if !table_lies_in(s, size, &table) {
                return false;
            }
            let directory: u64 = read_number(s, 48);
            if !chain_found(s, size, &table, directory) {
                return false;
            }
            if read_number(s, 64) == 0 || directory == 0xffff_fffe {
                return true;
            }
            let start: usize = find_start(s, size, directory);
            chain_found(s, size, &table, read_number(s, 60)) && chain_found(
                s,
                size,
                &table,
                read_number(s, start + 116),
            )
        },
        None => false,
    }
}

/// Whether a compound document is sound.
pub fn sound_compound(s: &Vec<u8>) -> (r: bool)
    requires
        is_compound(s@),
    ensures
        r == is_sound_compound(s@),
{
    let size: u64 = if s[30] == 9 && s[31] == 0 {
        512
    } else if s[30] == 12 && s[31] == 0 {
        4096
    } else {
        return true;
    };
    if (s.len() as u64) < size || s[32] != 6 || s[33] != 0 {
        return true;
    }
    sectors_found(s, size)
}

} // verus!
