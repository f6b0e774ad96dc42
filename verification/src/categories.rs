//! The standard Newznab category table.
//!
//! Every id and name is Jackett's `TorznabCatType` table. A top-level block
//! (such as `TV`) has an id that is a multiple of 1000 and no parent; a
//! subcategory (such as `TV/Anime`) has its block's id as parent.
use vstd::prelude::*;

verus! {

/// One standard Newznab category.
#[derive(Debug, Clone, Copy, PartialEq, Eq)]
pub struct NewznabCategory {
    /// The Newznab category id, e.g. `5070` for `TV/Anime`.
    pub id: u32,
    /// The category's Torznab name, e.g. `"TV/Anime"`.
    pub name: &'static str,
    /// The id of this category's top-level block, or `None` if this
    /// category is itself a top-level block.
    pub parent: Option<u32>,
}

/// The name of the standard category `id`, or `None` when `id` is not a
/// standard category.
pub open spec fn category_name(id: u32) -> Option<Seq<char>> {
    match id {
        1000 => Some("Console"@),
        1010 => Some("Console/NDS"@),
        1020 => Some("Console/PSP"@),
        1030 => Some("Console/Wii"@),
        1040 => Some("Console/XBox"@),
        1050 => Some("Console/XBox 360"@),
        1060 => Some("Console/Wiiware"@),
        1070 => Some("Console/XBox 360 DLC"@),
        1080 => Some("Console/PS3"@),
        1090 => Some("Console/Other"@),
        1110 => Some("Console/3DS"@),
        1120 => Some("Console/PS Vita"@),
        1130 => Some("Console/WiiU"@),
        1140 => Some("Console/XBox One"@),
        1180 => Some("Console/PS4"@),
        2000 => Some("Movies"@),
        2010 => Some("Movies/Foreign"@),
        2020 => Some("Movies/Other"@),
        2030 => Some("Movies/SD"@),
        2040 => Some("Movies/HD"@),
        2045 => Some("Movies/UHD"@),
        2050 => Some("Movies/BluRay"@),
        2060 => Some("Movies/3D"@),
        2070 => Some("Movies/DVD"@),
        2080 => Some("Movies/WEB-DL"@),
        3000 => Some("Audio"@),
        3010 => Some("Audio/MP3"@),
        3020 => Some("Audio/Video"@),
        3030 => Some("Audio/Audiobook"@),
        3040 => Some("Audio/Lossless"@),
        3050 => Some("Audio/Other"@),
        3060 => Some("Audio/Foreign"@),
        4000 => Some("PC"@),
        4010 => Some("PC/0day"@),
        4020 => Some("PC/ISO"@),
        4030 => Some("PC/Mac"@),
        4040 => Some("PC/Mobile-Other"@),
        4050 => Some("PC/Games"@),
        4060 => Some("PC/Mobile-iOS"@),
        4070 => Some("PC/Mobile-Android"@),
        5000 => Some("TV"@),
        5010 => Some("TV/WEB-DL"@),
        5020 => Some("TV/Foreign"@),
        5030 => Some("TV/SD"@),
        5040 => Some("TV/HD"@),
        5045 => Some("TV/UHD"@),
        5050 => Some("TV/Other"@),
        5060 => Some("TV/Sport"@),
        5070 => Some("TV/Anime"@),
        5080 => Some("TV/Documentary"@),
        6000 => Some("XXX"@),
        6010 => Some("XXX/DVD"@),
        6020 => Some("XXX/WMV"@),
        6030 => Some("XXX/XviD"@),
        6040 => Some("XXX/x264"@),
        6045 => Some("XXX/UHD"@),
        6050 => Some("XXX/Pack"@),
        6060 => Some("XXX/ImageSet"@),
        6070 => Some("XXX/Other"@),
        6080 => Some("XXX/SD"@),
        6090 => Some("XXX/WEB-DL"@),
        7000 => Some("Books"@),
        7010 => Some("Books/Mags"@),
        7020 => Some("Books/EBook"@),
        7030 => Some("Books/Comics"@),
        7040 => Some("Books/Technical"@),
        7050 => Some("Books/Other"@),
        7060 => Some("Books/Foreign"@),
        8000 => Some("Other"@),
        8010 => Some("Other/Misc"@),
        8020 => Some("Other/Hashed"@),
        _ => None,
    }
}

/// The parent a category with this id has: none for a top-level block,
/// else the block's id.
pub open spec fn category_parent(id: u32) -> Option<u32> {
    if id % 1000 == 0 {
        None
    } else {
        Some(((id / 1000) * 1000) as u32)
    }
}

/// The top-level block of `id` (a block is its own).
pub open spec fn top_of(id: u32) -> u32 {
    match category_parent(id) {
        Some(p) => p,
        None => id,
    }
}

/// What [`parent_of`] answers for `id`.
pub open spec fn spec_parent_of(id: u32) -> Option<u32> {
    if category_name(id) is Some {
        Some(top_of(id))
    } else {
        None
    }
}

/// Whether `c` is the standard category with its id.
pub open spec fn is_standard(c: NewznabCategory) -> bool {
    category_name(c.id) == Some(c.name@) && c.parent == category_parent(c.id)
}

pub(crate) fn name_of(id: u32) -> (r: Option<&'static str>)
    ensures
        match category_name(id) {
            Some(n) => r matches Some(x) && x@ == n,
            None => r is None,
        },
{
    match id {
        1000 => Some("Console"),
        1010 => Some("Console/NDS"),
        1020 => Some("Console/PSP"),
        1030 => Some("Console/Wii"),
        1040 => Some("Console/XBox"),
        1050 => Some("Console/XBox 360"),
        1060 => Some("Console/Wiiware"),
        1070 => Some("Console/XBox 360 DLC"),
        1080 => Some("Console/PS3"),
        1090 => Some("Console/Other"),
        1110 => Some("Console/3DS"),
        1120 => Some("Console/PS Vita"),
        1130 => Some("Console/WiiU"),
        1140 => Some("Console/XBox One"),
        1180 => Some("Console/PS4"),
        2000 => Some("Movies"),
        2010 => Some("Movies/Foreign"),
        2020 => Some("Movies/Other"),
        2030 => Some("Movies/SD"),
        2040 => Some("Movies/HD"),
        2045 => Some("Movies/UHD"),
        2050 => Some("Movies/BluRay"),
        2060 => Some("Movies/3D"),
        2070 => Some("Movies/DVD"),
        2080 => Some("Movies/WEB-DL"),
        3000 => Some("Audio"),
        3010 => Some("Audio/MP3"),
        3020 => Some("Audio/Video"),
        3030 => Some("Audio/Audiobook"),
        3040 => Some("Audio/Lossless"),
        3050 => Some("Audio/Other"),
        3060 => Some("Audio/Foreign"),
        4000 => Some("PC"),
        4010 => Some("PC/0day"),
        4020 => Some("PC/ISO"),
        4030 => Some("PC/Mac"),
        4040 => Some("PC/Mobile-Other"),
        4050 => Some("PC/Games"),
        4060 => Some("PC/Mobile-iOS"),
        4070 => Some("PC/Mobile-Android"),
        5000 => Some("TV"),
        5010 => Some("TV/WEB-DL"),
        5020 => Some("TV/Foreign"),
        5030 => Some("TV/SD"),
        5040 => Some("TV/HD"),
        5045 => Some("TV/UHD"),
        5050 => Some("TV/Other"),
        5060 => Some("TV/Sport"),
        5070 => Some("TV/Anime"),
        5080 => Some("TV/Documentary"),
        6000 => Some("XXX"),
        6010 => Some("XXX/DVD"),
        6020 => Some("XXX/WMV"),
        6030 => Some("XXX/XviD"),
        6040 => Some("XXX/x264"),
        6045 => Some("XXX/UHD"),
        6050 => Some("XXX/Pack"),
        6060 => Some("XXX/ImageSet"),
        6070 => Some("XXX/Other"),
        6080 => Some("XXX/SD"),
        6090 => Some("XXX/WEB-DL"),
        7000 => Some("Books"),
        7010 => Some("Books/Mags"),
        7020 => Some("Books/EBook"),
        7030 => Some("Books/Comics"),
        7040 => Some("Books/Technical"),
        7050 => Some("Books/Other"),
        7060 => Some("Books/Foreign"),
        8000 => Some("Other"),
        8010 => Some("Other/Misc"),
        8020 => Some("Other/Hashed"),
        _ => None,
    }
}

/// Every standard category id lies in 1000..=8020 and is a multiple of 5.
proof fn lemma_category_id_range(id: u32)
    ensures
        category_name(id) is Some ==> 1000 <= id <= 8020 && id % 5 == 0,
{
}

/// Looks up a category by its Newznab id.
pub fn by_id(id: u32) -> (r: Option<NewznabCategory>)
    ensures
        match category_name(id) {
            Some(n) => r matches Some(c) && c.id == id && is_standard(c),
            None => r is None,
        },
{
    match name_of(id) {
        Some(name) => {
            let parent = if id % 1000 == 0 {
                None
            } else {
                Some((id / 1000) * 1000)
            };
            Some(NewznabCategory { id, name, parent })
        },
        None => None,
    }
}

/// A subcategory's top-level parent id (a parent maps to itself).
pub fn parent_of(id: u32) -> (r: Option<u32>)
    ensures
        r == spec_parent_of(id),
{
    match by_id(id) {
        Some(c) => match c.parent {
            Some(p) => Some(p),
            None => Some(c.id),
        },
        None => None,
    }
}

/// Every standard category and subcategory, ordered by id.
pub fn all() -> (r: Vec<NewznabCategory>)
    ensures
        forall|i: int| 0 <= i < r@.len() ==> is_standard(#[trigger] r@[i]),
        forall|i: int, j: int| 0 <= i < j < r@.len() ==> r@[i].id < r@[j].id,
        forall|id: u32| category_name(id) is Some ==> exists|i: int| 0 <= i < r@.len() && (#[trigger] r@[i]).id == id,
{
    let mut out: Vec<NewznabCategory> = Vec::new();
    let mut id: u32 = 1000;
    while id <= 8020
        invariant
            1000 <= id <= 8025,
            id % 5 == 0,
            forall|i: int| 0 <= i < out@.len() ==> is_standard(#[trigger] out@[i]),
            forall|i: int| 0 <= i < out@.len() ==> (#[trigger] out@[i]).id < id,
            forall|i: int, j: int| 0 <= i < j < out@.len() ==> out@[i].id < out@[j].id,
            forall|k: u32| k < id && category_name(k) is Some ==> exists|i: int| 0 <= i < out@.len() && (#[trigger] out@[i]).id == k,
        decreases 8025 - id,
    {
        let ghost old_out = out@;
        match by_id(id) {
            Some(c) => {
                out.push(c);
                assert(out@[out@.len() - 1].id == id);
            },
            None => {},
        }
        assert forall|k: u32| k < id + 5 && category_name(k) is Some implies exists|i: int| 0 <= i < out@.len() && (#[trigger] out@[i]).id == k by {
            lemma_category_id_range(k);
            if k == id {
                assert(out@[out@.len() - 1].id == k);
            } else {
                let i = choose|i: int| 0 <= i < old_out.len() && (#[trigger] old_out[i]).id == k;
                assert(out@[i] == old_out[i]);
            }
        }
        id = id + 5;
    }
    assert forall|k: u32| category_name(k) is Some implies exists|i: int| 0 <= i < out@.len() && (#[trigger] out@[i]).id == k by {
        lemma_category_id_range(k);
    }
    out
}

/// The parent [`parent_of`] gives for a standard category is itself a
/// standard top-level block, and is its own parent.
pub proof fn law_parent_is_a_top_level_block(id: u32)
    requires
        category_name(id) is Some,
    ensures
        category_name(top_of(id)) is Some,
        category_parent(top_of(id)) is None,
        top_of(top_of(id)) == top_of(id),
{
}

/// A top-level block's id is a multiple of 1000; a subcategory's parent is
/// its own id rounded down to the block.
pub proof fn law_blocks_are_thousands(id: u32)
    requires
        category_name(id) is Some,
    ensures
        category_parent(id) is None <==> id % 1000 == 0,
        category_parent(id) matches Some(p) ==> p < id && id - p < 1000,
{
}

} // verus!
