use vstd::prelude::*;

verus! {

/// Names of the textures a block can be drawn with.
#[derive(Debug, PartialEq, Eq, Clone, Copy, Hash, Structural)]
pub enum TextureName {
    Dirt,
    RedstoneTorch,
    RedstoneBlock,
    TargetBlock,
    RedstoneDust,
    Piston,
    StickyPiston,
    PistonHead,
    StickyPistonHead,
    Repeater,
    Comparator,
    Observer,
    SlimeBlock,
    Button,
    Lever,
    BlackWool,
    BlueWool,
    BrownWool,
    CyanWool,
    GrayWool,
    GreenWool,
    LightBlueWool,
    LightGrayWool,
    LimeWool,
    MagentaWool,
    OrangeWool,
    PinkWool,
    PurpleWool,
    RedWool,
    WhiteWool,
    YellowWool,
    RedstoneLamp,
    Glass,
}

/// Every texture name, in declaration order.
pub open spec fn all_texture_names() -> Seq<TextureName> {
    seq![
        TextureName::Dirt,
        TextureName::RedstoneTorch,
        TextureName::RedstoneBlock,
        TextureName::TargetBlock,
        TextureName::RedstoneDust,
        TextureName::Piston,
        TextureName::StickyPiston,
        TextureName::PistonHead,
        TextureName::StickyPistonHead,
        TextureName::Repeater,
        TextureName::Comparator,
        TextureName::Observer,
        TextureName::SlimeBlock,
        TextureName::Button,
        TextureName::Lever,
        TextureName::BlackWool,
        TextureName::BlueWool,
        TextureName::BrownWool,
        TextureName::CyanWool,
        TextureName::GrayWool,
        TextureName::GreenWool,
        TextureName::LightBlueWool,
        TextureName::LightGrayWool,
        TextureName::LimeWool,
        TextureName::MagentaWool,
        TextureName::OrangeWool,
        TextureName::PinkWool,
        TextureName::PurpleWool,
        TextureName::RedWool,
        TextureName::WhiteWool,
        TextureName::YellowWool,
        TextureName::RedstoneLamp,
        TextureName::Glass,
    ]
}

impl TextureName {
    /// All texture names, each exactly once, in declaration order.
    pub fn iter() -> (r: Vec<TextureName>)
        ensures
            r@ == all_texture_names(),
    {
        let r = vec![
            TextureName::Dirt,
            TextureName::RedstoneTorch,
            TextureName::RedstoneBlock,
            TextureName::TargetBlock,
            TextureName::RedstoneDust,
            TextureName::Piston,
            TextureName::StickyPiston,
            TextureName::PistonHead,
            TextureName::StickyPistonHead,
            TextureName::Repeater,
            TextureName::Comparator,
            TextureName::Observer,
            TextureName::SlimeBlock,
            TextureName::Button,
            TextureName::Lever,
            TextureName::BlackWool,
            TextureName::BlueWool,
            TextureName::BrownWool,
            TextureName::CyanWool,
            TextureName::GrayWool,
            TextureName::GreenWool,
            TextureName::LightBlueWool,
            TextureName::LightGrayWool,
            TextureName::LimeWool,
            TextureName::MagentaWool,
            TextureName::OrangeWool,
            TextureName::PinkWool,
            TextureName::PurpleWool,
            TextureName::RedWool,
            TextureName::WhiteWool,
            TextureName::YellowWool,
            TextureName::RedstoneLamp,
            TextureName::Glass,
        ];
        assert(r@ =~= all_texture_names());
        r
    }
}

/// Every texture name occurs in the list exactly once.
pub proof fn lemma_texture_names_complete(t: TextureName)
    ensures
        all_texture_names().contains(t),
        all_texture_names().no_duplicates(),
{
    let s = all_texture_names();
    assert(s.len() == 33);
    match t {
        TextureName::Dirt => assert(s[0] == t),
        TextureName::RedstoneTorch => assert(s[1] == t),
        TextureName::RedstoneBlock => assert(s[2] == t),
        TextureName::TargetBlock => assert(s[3] == t),
        TextureName::RedstoneDust => assert(s[4] == t),
        TextureName::Piston => assert(s[5] == t),
        TextureName::StickyPiston => assert(s[6] == t),
        TextureName::PistonHead => assert(s[7] == t),
        TextureName::StickyPistonHead => assert(s[8] == t),
        TextureName::Repeater => assert(s[9] == t),
        TextureName::Comparator => assert(s[10] == t),
        TextureName::Observer => assert(s[11] == t),
        TextureName::SlimeBlock => assert(s[12] == t),
        TextureName::Button => assert(s[13] == t),
        TextureName::Lever => assert(s[14] == t),
        TextureName::BlackWool => assert(s[15] == t),
        TextureName::BlueWool => assert(s[16] == t),
        TextureName::BrownWool => assert(s[17] == t),
        TextureName::CyanWool => assert(s[18] == t),
        TextureName::GrayWool => assert(s[19] == t),
        TextureName::GreenWool => assert(s[20] == t),
        TextureName::LightBlueWool => assert(s[21] == t),
        TextureName::LightGrayWool => assert(s[22] == t),
        TextureName::LimeWool => assert(s[23] == t),
        TextureName::MagentaWool => assert(s[24] == t),
        TextureName::OrangeWool => assert(s[25] == t),
        TextureName::PinkWool => assert(s[26] == t),
        TextureName::PurpleWool => assert(s[27] == t),
        TextureName::RedWool => assert(s[28] == t),
        TextureName::WhiteWool => assert(s[29] == t),
        TextureName::YellowWool => assert(s[30] == t),
        TextureName::RedstoneLamp => assert(s[31] == t),
        TextureName::Glass => assert(s[32] == t),
    }
    assert forall|i: int, j: int| 0 <= i < s.len() && 0 <= j < s.len() && i != j implies s[i] != s[j] by {
        assert(s[i] != s[j]);
    }
}

} // verus!
