//! Uniswap V3 tick math: the square-root price of a tick, and the ticks
//! that bound a tick on a grid of a given spacing.
use crate::uint::{lemma_pow2_values, p128, p160, p256, U160, U256};
use vstd::arithmetic::div_mod::{
    lemma_div_by_multiple, lemma_div_is_ordered, lemma_div_is_ordered_by_denominator,
    lemma_div_pos_is_pos,
    lemma_fundamental_div_mod, lemma_mod_bound,
};
use vstd::arithmetic::mul::{lemma_mul_inequality, lemma_mul_is_commutative};
use vstd::arithmetic::power2::{lemma2_to64, lemma_pow2_pos, pow2};
use vstd::bits::lemma_u32_shr_is_div;
use vstd::prelude::*;

verus! {

/// The largest tick magnitude Uniswap V3 supports.
pub const MAX_TICK: i32 = 887272;

/// The smallest value of a signed 24-bit tick.
pub const I24_MIN: i32 = -8388608;

/// The largest value of a signed 24-bit tick.
pub const I24_MAX: i32 = 8388607;

/// The square-root price at `-MAX_TICK` (Uniswap's MIN_SQRT_RATIO).
pub open spec fn min_sqrt_ratio() -> int {
    4295128739
}

/// The square-root price at `MAX_TICK` (Uniswap's MAX_SQRT_RATIO).
pub open spec fn max_sqrt_ratio() -> int {
    1461446703485210103287273052203988822378723970342int
}

/// Why a tick computation was refused.
#[derive(Debug, Clone, Copy, PartialEq, Eq, Structural)]
pub enum TickError {
    /// The tick lies outside `[-MAX_TICK, MAX_TICK]`.
    TickOutOfBounds(i32),
}

/// The absolute value of a tick.
pub open spec fn tick_abs(tick: int) -> nat {
    if tick < 0 {
        (-tick) as nat
    } else {
        tick as nat
    }
}

/// Bit `k` of the absolute tick.
pub open spec fn tick_bit(abs: nat, k: nat) -> bool {
    (abs / pow2(k)) % 2 == 1
}

/// The Q128.128 factor applied for bit 0 of the absolute tick.
pub open spec fn ratio_base() -> int {
    0xfffcb933bd6fad37aa2d162d1a594001
}

/// The Q128.128 factor applied for bit `k` (1 <= k <= 19) of the absolute tick.
pub open spec fn tick_factor(k: nat) -> int {
    if k == 1 {
        0xfff97272373d413259a46990580e213a
    } else if k == 2 {
        0xfff2e50f5f656932ef12357cf3c7fdcc
    } else if k == 3 {
        0xffe5caca7e10e4e61c3624eaa0941cd0
    } else if k == 4 {
        0xffcb9843d60f6159c9db58835c926644
    } else if k == 5 {
        0xff973b41fa98c081472e6896dfb254c0
    } else if k == 6 {
        0xff2ea16466c96a3843ec78b326b52861
    } else if k == 7 {
        0xfe5dee046a99a2a811c461f1969c3053
    } else if k == 8 {
        0xfcbe86c7900a88aedcffc83b479aa3a4
    } else if k == 9 {
        0xf987a7253ac413176f2b074cf7815e54
    } else if k == 10 {
        0xf3392b0822b70005940c7a398e4b70f3
    } else if k == 11 {
        0xe7159475a2c29b7443b29c7fa6e889d9
    } else if k == 12 {
        0xd097f3bdfd2022b8845ad8f792aa5825
    } else if k == 13 {
        0xa9f746462d870fdf8a65dc1f90e061e5
    } else if k == 14 {
        0x70d869a156d2a1b890bb3df62baf32f7
    } else if k == 15 {
        0x31be135f97d08fd981231505542fcfa6
    } else if k == 16 {
        0x9aa508b5b7a84e1c677de54f3e99bc9
    } else if k == 17 {
        0x5d6af8dedb81196699c329225ee604
    } else if k == 18 {
        0x2216e584f5fa1ea926041bedfe98
    } else {
        0x48a170391f7dc42444e8fa2
    }
}

/// The factor table, as executable code.
fn tick_factor_exec(k: u32) -> (r: u128)
    requires
        1 <= k <= 19,
    ensures
        r == tick_factor(k as nat),
{
    match k {
        1 => 0xfff97272373d413259a46990580e213a,
        2 => 0xfff2e50f5f656932ef12357cf3c7fdcc,
        3 => 0xffe5caca7e10e4e61c3624eaa0941cd0,
        4 => 0xffcb9843d60f6159c9db58835c926644,
        5 => 0xff973b41fa98c081472e6896dfb254c0,
        6 => 0xff2ea16466c96a3843ec78b326b52861,
        7 => 0xfe5dee046a99a2a811c461f1969c3053,
        8 => 0xfcbe86c7900a88aedcffc83b479aa3a4,
        9 => 0xf987a7253ac413176f2b074cf7815e54,
        10 => 0xf3392b0822b70005940c7a398e4b70f3,
        11 => 0xe7159475a2c29b7443b29c7fa6e889d9,
        12 => 0xd097f3bdfd2022b8845ad8f792aa5825,
        13 => 0xa9f746462d870fdf8a65dc1f90e061e5,
        14 => 0x70d869a156d2a1b890bb3df62baf32f7,
        15 => 0x31be135f97d08fd981231505542fcfa6,
        16 => 0x9aa508b5b7a84e1c677de54f3e99bc9,
        17 => 0x5d6af8dedb81196699c329225ee604,
        18 => 0x2216e584f5fa1ea926041bedfe98,
        _ => 0x48a170391f7dc42444e8fa2,
    }
}

proof fn lemma_ratio_at_887272()
    ensures
        ratio_after(887272, 19) == 18447437462383981825,
{
    lemma2_to64();
    assert(ratio_after(887272, 0) == 340282366920938463463374607431768211456);
    assert(ratio_after(887272, 1) == 340282366920938463463374607431768211456);
    assert(ratio_after(887272, 2) == 340282366920938463463374607431768211456);
    assert(ratio_after(887272, 3) == 340146287995602323631171512101879684304);
    assert(ratio_after(887272, 4) == 340146287995602323631171512101879684304);
    assert(ratio_after(887272, 5) == 339602516256333450911508783463471979131);
    assert(ratio_after(887272, 6) == 338517579275194439321187592667164221528);
    assert(ratio_after(887272, 7) == 336358092468829139771578271041138980598);
    assert(ratio_after(887272, 8) == 332080358666931741096696533686537939851);
    assert(ratio_after(887272, 9) == 332080358666931741096696533686537939851);
    assert(ratio_after(887272, 10) == 332080358666931741096696533686537939851);
    assert(ratio_after(887272, 11) == 299759984706031786325544380651874553391);
    assert(ratio_after(887272, 12) == 299759984706031786325544380651874553391);
    assert(ratio_after(887272, 13) == 299759984706031786325544380651874553391);
    assert(ratio_after(887272, 14) == 299759984706031786325544380651874553391);
    assert(ratio_after(887272, 15) == 58245335850494778643666308752178602959);
    assert(ratio_after(887272, 16) == 2199055273679667890264176287186730611);
    assert(ratio_after(887272, 17) == 2199055273679667890264176287186730611);
    assert(ratio_after(887272, 18) == 4468236096036213022677869620526);
    assert(ratio_after(887272, 19) == 18447437462383981825);
}

proof fn lemma_ratio_at_887271()
    ensures
        ratio_after(887271, 19) == 18448359811198957089,
{
    lemma2_to64();
    assert(ratio_after(887271, 0) == 340265354078544963557816517032075149313);
    assert(ratio_after(887271, 1) == 340231330945450418515964920540021147198);
    assert(ratio_after(887271, 2) == 340163294884840501567246455576441303173);
    assert(ratio_after(887271, 3) == 340163294884840501567246455576441303173);
    assert(ratio_after(887271, 4) == 340163294884840501567246455576441303173);
    assert(ratio_after(887271, 5) == 339619495957664346094424090076719879969);
    assert(ratio_after(887271, 6) == 338534504731032380975623564962915820361);
    assert(ratio_after(887271, 7) == 336374909953025986709502894373572786635);
    assert(ratio_after(887271, 8) == 332096962269785393075405270746834335136);
    assert(ratio_after(887271, 9) == 332096962269785393075405270746834335136);
    assert(ratio_after(887271, 10) == 332096962269785393075405270746834335136);
    assert(ratio_after(887271, 11) == 299774972330585840860509571166564819157);
    assert(ratio_after(887271, 12) == 299774972330585840860509571166564819157);
    assert(ratio_after(887271, 13) == 299774972330585840860509571166564819157);
    assert(ratio_after(887271, 14) == 299774972330585840860509571166564819157);
    assert(ratio_after(887271, 15) == 58248248044484273675465756785334363784);
    assert(ratio_after(887271, 16) == 2199165223694670213924251208684935069);
    assert(ratio_after(887271, 17) == 2199165223694670213924251208684935069);
    assert(ratio_after(887271, 18) == 4468459502255998960586913940513);
    assert(ratio_after(887271, 19) == 18448359811198957089);
}

proof fn lemma_ratio_at_887263()
    ensures
        ratio_after(887263, 19) == 18455740262098820628,
{
    lemma2_to64();
    assert(ratio_after(887263, 0) == 340265354078544963557816517032075149313);
    assert(ratio_after(887263, 1) == 340231330945450418515964920540021147198);
    assert(ratio_after(887263, 2) == 340163294884840501567246455576441303173);
    assert(ratio_after(887263, 3) == 340027263576413978334042125129128142263);
    assert(ratio_after(887263, 4) == 339755364134575681238502878529008278326);
    assert(ratio_after(887263, 5) == 339755364134575681238502878529008278326);
    assert(ratio_after(887263, 6) == 338669938846349249662331275553455476285);
    assert(ratio_after(887263, 7) == 336509480100847327563048997350932560690);
    assert(ratio_after(887263, 8) == 332229820981839464478534385930290242302);
    assert(ratio_after(887263, 9) == 332229820981839464478534385930290242302);
    assert(ratio_after(887263, 10) == 332229820981839464478534385930290242302);
    assert(ratio_after(887263, 11) == 299894900307215544898823803047631839413);
    assert(ratio_after(887263, 12) == 299894900307215544898823803047631839413);
    assert(ratio_after(887263, 13) == 299894900307215544898823803047631839413);
    assert(ratio_after(887263, 14) == 299894900307215544898823803047631839413);
    assert(ratio_after(887263, 15) == 58271550838829948870995105159123135223);
    assert(ratio_after(887263, 16) == 2200045021742858384501334794946199961);
    assert(ratio_after(887263, 17) == 2200045021742858384501334794946199961);
    assert(ratio_after(887263, 18) == 4470247154182345780386060562747);
    assert(ratio_after(887263, 19) == 18455740262098820628);
}

proof fn lemma_ratio_at_887231()
    ensures
        ratio_after(887231, 19) == 18485291603745067557,
{
    lemma2_to64();
    assert(ratio_after(887231, 0) == 340265354078544963557816517032075149313);
    assert(ratio_after(887231, 1) == 340231330945450418515964920540021147198);
    assert(ratio_after(887231, 2) == 340163294884840501567246455576441303173);
    assert(ratio_after(887231, 3) == 340027263576413978334042125129128142263);
    assert(ratio_after(887231, 4) == 339755364134575681238502878529008278326);
    assert(ratio_after(887231, 5) == 339212217342146842559531600927033253847);
    assert(ratio_after(887231, 6) == 339212217342146842559531600927033253847);
    assert(ratio_after(887231, 7) == 337048299268891372587225052786231496091);
    assert(ratio_after(887231, 8) == 332761787557304765920765667086403533433);
    assert(ratio_after(887231, 9) == 332761787557304765920765667086403533433);
    assert(ratio_after(887231, 10) == 332761787557304765920765667086403533433);
    assert(ratio_after(887231, 11) == 300375092189583196575023564992785662581);
    assert(ratio_after(887231, 12) == 300375092189583196575023564992785662581);
    assert(ratio_after(887231, 13) == 300375092189583196575023564992785662581);
    assert(ratio_after(887231, 14) == 300375092189583196575023564992785662581);
    assert(ratio_after(887231, 15) == 58364855278675759822892826829319594989);
    assert(ratio_after(887231, 16) == 2203567735064098765832143255163441428);
    assert(ratio_after(887231, 17) == 2203567735064098765832143255163441428);
    assert(ratio_after(887231, 18) == 4477404916429774739069988095302);
    assert(ratio_after(887231, 19) == 18485291603745067557);
}

proof fn lemma_ratio_at_887167()
    ensures
        ratio_after(887167, 19) == 18544536315676963054,
{
    lemma2_to64();
    assert(ratio_after(887167, 0) == 340265354078544963557816517032075149313);
    assert(ratio_after(887167, 1) == 340231330945450418515964920540021147198);
    assert(ratio_after(887167, 2) == 340163294884840501567246455576441303173);
    assert(ratio_after(887167, 3) == 340027263576413978334042125129128142263);
    assert(ratio_after(887167, 4) == 339755364134575681238502878529008278326);
    assert(ratio_after(887167, 5) == 339212217342146842559531600927033253847);
    assert(ratio_after(887167, 6) == 338128527259088467778511436198880488164);
    assert(ratio_after(887167, 7) == 338128527259088467778511436198880488164);
    assert(ratio_after(887167, 8) == 333828277427650173479674210148352961005);
    assert(ratio_after(887167, 9) == 333828277427650173479674210148352961005);
    assert(ratio_after(887167, 10) == 333828277427650173479674210148352961005);
    assert(ratio_after(887167, 11) == 301337783835988334384209335474576426023);
    assert(ratio_after(887167, 12) == 301337783835988334384209335474576426023);
    assert(ratio_after(887167, 13) == 301337783835988334384209335474576426023);
    assert(ratio_after(887167, 14) == 301337783835988334384209335474576426023);
    assert(ratio_after(887167, 15) == 58551912594949384273629074008718779668);
    assert(ratio_after(887167, 16) == 2210630092449894234760064555360543372);
    assert(ratio_after(887167, 17) == 2210630092449894234760064555360543372);
    assert(ratio_after(887167, 18) == 4491754842314773663966702546842);
    assert(ratio_after(887167, 19) == 18544536315676963054);
}

proof fn lemma_ratio_at_887039()
    ensures
        ratio_after(887039, 19) == 18663595979768671374,
{
    lemma2_to64();
    assert(ratio_after(887039, 0) == 340265354078544963557816517032075149313);
    assert(ratio_after(887039, 1) == 340231330945450418515964920540021147198);
    assert(ratio_after(887039, 2) == 340163294884840501567246455576441303173);
    assert(ratio_after(887039, 3) == 340027263576413978334042125129128142263);
    assert(ratio_after(887039, 4) == 339755364134575681238502878529008278326);
    assert(ratio_after(887039, 5) == 339212217342146842559531600927033253847);
    assert(ratio_after(887039, 6) == 338128527259088467778511436198880488164);
    assert(ratio_after(887039, 7) == 335971522311117552149334092109581418674);
    assert(ratio_after(887039, 8) == 335971522311117552149334092109581418674);
    assert(ratio_after(887039, 9) == 335971522311117552149334092109581418674);
    assert(ratio_after(887039, 10) == 335971522311117552149334092109581418674);
    assert(ratio_after(887039, 11) == 303272433196367496712796860745244959080);
    assert(ratio_after(887039, 12) == 303272433196367496712796860745244959080);
    assert(ratio_after(887039, 13) == 303272433196367496712796860745244959080);
    assert(ratio_after(887039, 14) == 303272433196367496712796860745244959080);
    assert(ratio_after(887039, 15) == 58927827685346577561365865079554362806);
    assert(ratio_after(887039, 16) == 2224822783588556365759433872736762322);
    assert(ratio_after(887039, 17) == 2224822783588556365759433872736762322);
    assert(ratio_after(887039, 18) == 4520592814513421165357621515136);
    assert(ratio_after(887039, 19) == 18663595979768671374);
}

proof fn lemma_ratio_at_886783()
    ensures
        ratio_after(886783, 19) == 18904013376654490350,
{
    lemma2_to64();
    assert(ratio_after(886783, 0) == 340265354078544963557816517032075149313);
    assert(ratio_after(886783, 1) == 340231330945450418515964920540021147198);
    assert(ratio_after(886783, 2) == 340163294884840501567246455576441303173);
    assert(ratio_after(886783, 3) == 340027263576413978334042125129128142263);
    assert(ratio_after(886783, 4) == 339755364134575681238502878529008278326);
    assert(ratio_after(886783, 5) == 339212217342146842559531600927033253847);
    assert(ratio_after(886783, 6) == 338128527259088467778511436198880488164);
    assert(ratio_after(886783, 7) == 335971522311117552149334092109581418674);
    assert(ratio_after(886783, 8) == 331698704829854243503582989311158516586);
    assert(ratio_after(886783, 9) == 323315401242583425022802937239550140918);
    assert(ratio_after(886783, 10) == 307179074178916392659402722612948179612);
    assert(ratio_after(886783, 11) == 307179074178916392659402722612948179612);
    assert(ratio_after(886783, 12) == 307179074178916392659402722612948179612);
    assert(ratio_after(886783, 13) == 307179074178916392659402722612948179612);
    assert(ratio_after(886783, 14) == 307179074178916392659402722612948179612);
    assert(ratio_after(886783, 15) == 59686913713119812603371671698762449051);
    assert(ratio_after(886783, 16) == 2253482110694781702142705613820972908);
    assert(ratio_after(886783, 17) == 2253482110694781702142705613820972908);
    assert(ratio_after(886783, 18) == 4578825384379602199404917422214);
    assert(ratio_after(886783, 19) == 18904013376654490350);
}

proof fn lemma_ratio_at_884735()
    ensures
        ratio_after(884735, 19) == 20942260016860680455,
{
    lemma2_to64();
    assert(ratio_after(884735, 0) == 340265354078544963557816517032075149313);
    assert(ratio_after(884735, 1) == 340231330945450418515964920540021147198);
    assert(ratio_after(884735, 2) == 340163294884840501567246455576441303173);
    assert(ratio_after(884735, 3) == 340027263576413978334042125129128142263);
    assert(ratio_after(884735, 4) == 339755364134575681238502878529008278326);
    assert(ratio_after(884735, 5) == 339212217342146842559531600927033253847);
    assert(ratio_after(884735, 6) == 338128527259088467778511436198880488164);
    assert(ratio_after(884735, 7) == 335971522311117552149334092109581418674);
    assert(ratio_after(884735, 8) == 331698704829854243503582989311158516586);
    assert(ratio_after(884735, 9) == 323315401242583425022802937239550140918);
    assert(ratio_after(884735, 10) == 307179074178916392659402722612948179612);
    assert(ratio_after(884735, 11) == 277282266700509388632609933215391170106);
    assert(ratio_after(884735, 12) == 225934749830749445986089663015556949343);
    assert(ratio_after(884735, 13) == 150004713758184102711002566140788444796);
    assert(ratio_after(884735, 14) == 66122407008436832627027740713496573148);
    assert(ratio_after(884735, 15) == 66122407008436832627027740713496573148);
    assert(ratio_after(884735, 16) == 2496454449391955163737842341696259497);
    assert(ratio_after(884735, 17) == 2496454449391955163737842341696259497);
    assert(ratio_after(884735, 18) == 5072518192877508330704613754878);
    assert(ratio_after(884735, 19) == 20942260016860680455);
}

proof fn lemma_ratio_at_851967()
    ensures
        ratio_after(851967, 19) == 107779471964544806931,
{
    lemma2_to64();
    assert(ratio_after(851967, 0) == 340265354078544963557816517032075149313);
    assert(ratio_after(851967, 1) == 340231330945450418515964920540021147198);
    assert(ratio_after(851967, 2) == 340163294884840501567246455576441303173);
    assert(ratio_after(851967, 3) == 340027263576413978334042125129128142263);
    assert(ratio_after(851967, 4) == 339755364134575681238502878529008278326);
    assert(ratio_after(851967, 5) == 339212217342146842559531600927033253847);
    assert(ratio_after(851967, 6) == 338128527259088467778511436198880488164);
    assert(ratio_after(851967, 7) == 335971522311117552149334092109581418674);
    assert(ratio_after(851967, 8) == 331698704829854243503582989311158516586);
    assert(ratio_after(851967, 9) == 323315401242583425022802937239550140918);
    assert(ratio_after(851967, 10) == 307179074178916392659402722612948179612);
    assert(ratio_after(851967, 11) == 277282266700509388632609933215391170106);
    assert(ratio_after(851967, 12) == 225934749830749445986089663015556949343);
    assert(ratio_after(851967, 13) == 150004713758184102711002566140788444796);
    assert(ratio_after(851967, 14) == 66122407008436832627027740713496573148);
    assert(ratio_after(851967, 15) == 12848018414553970828728179856918040433);
    assert(ratio_after(851967, 16) == 12848018414553970828728179856918040433);
    assert(ratio_after(851967, 17) == 12848018414553970828728179856918040433);
    assert(ratio_after(851967, 18) == 26105746558333448534557339596319);
    assert(ratio_after(851967, 19) == 107779471964544806931);
}

proof fn lemma_ratio_at_786431()
    ensures
        ratio_after(786431, 19) == 2854703843737195601753,
{
    lemma2_to64();
    assert(ratio_after(786431, 0) == 340265354078544963557816517032075149313);
    assert(ratio_after(786431, 1) == 340231330945450418515964920540021147198);
    assert(ratio_after(786431, 2) == 340163294884840501567246455576441303173);
    assert(ratio_after(786431, 3) == 340027263576413978334042125129128142263);
    assert(ratio_after(786431, 4) == 339755364134575681238502878529008278326);
    assert(ratio_after(786431, 5) == 339212217342146842559531600927033253847);
    assert(ratio_after(786431, 6) == 338128527259088467778511436198880488164);
    assert(ratio_after(786431, 7) == 335971522311117552149334092109581418674);
    assert(ratio_after(786431, 8) == 331698704829854243503582989311158516586);
    assert(ratio_after(786431, 9) == 323315401242583425022802937239550140918);
    assert(ratio_after(786431, 10) == 307179074178916392659402722612948179612);
    assert(ratio_after(786431, 11) == 277282266700509388632609933215391170106);
    assert(ratio_after(786431, 12) == 225934749830749445986089663015556949343);
    assert(ratio_after(786431, 13) == 150004713758184102711002566140788444796);
    assert(ratio_after(786431, 14) == 66122407008436832627027740713496573148);
    assert(ratio_after(786431, 15) == 12848018414553970828728179856918040433);
    assert(ratio_after(786431, 16) == 485077512873820763967752669154895175);
    assert(ratio_after(786431, 17) == 691450548841240133896843047535567);
    assert(ratio_after(786431, 18) == 691450548841240133896843047535567);
    assert(ratio_after(786431, 19) == 2854703843737195601753);
}

proof fn lemma_ratio_at_524287()
    ensures
        ratio_after(524287, 0) == 340265354078544963557816517032075149313,
        ratio_after(524287, 1) == 340231330945450418515964920540021147198,
        ratio_after(524287, 2) == 340163294884840501567246455576441303173,
        ratio_after(524287, 3) == 340027263576413978334042125129128142263,
        ratio_after(524287, 4) == 339755364134575681238502878529008278326,
        ratio_after(524287, 5) == 339212217342146842559531600927033253847,
        ratio_after(524287, 6) == 338128527259088467778511436198880488164,
        ratio_after(524287, 7) == 335971522311117552149334092109581418674,
        ratio_after(524287, 8) == 331698704829854243503582989311158516586,
        ratio_after(524287, 9) == 323315401242583425022802937239550140918,
        ratio_after(524287, 10) == 307179074178916392659402722612948179612,
        ratio_after(524287, 11) == 277282266700509388632609933215391170106,
        ratio_after(524287, 12) == 225934749830749445986089663015556949343,
        ratio_after(524287, 13) == 150004713758184102711002566140788444796,
        ratio_after(524287, 14) == 66122407008436832627027740713496573148,
        ratio_after(524287, 15) == 12848018414553970828728179856918040433,
        ratio_after(524287, 16) == 485077512873820763967752669154895175,
        ratio_after(524287, 17) == 691450548841240133896843047535567,
        ratio_after(524287, 18) == 1404950724947776134837143967,
        ratio_after(524287, 19) == 1404950724947776134837143967,
{
    lemma2_to64();
    assert(ratio_after(524287, 0) == 340265354078544963557816517032075149313);
    assert(ratio_after(524287, 1) == 340231330945450418515964920540021147198);
    assert(ratio_after(524287, 2) == 340163294884840501567246455576441303173);
    assert(ratio_after(524287, 3) == 340027263576413978334042125129128142263);
    assert(ratio_after(524287, 4) == 339755364134575681238502878529008278326);
    assert(ratio_after(524287, 5) == 339212217342146842559531600927033253847);
    assert(ratio_after(524287, 6) == 338128527259088467778511436198880488164);
    assert(ratio_after(524287, 7) == 335971522311117552149334092109581418674);
    assert(ratio_after(524287, 8) == 331698704829854243503582989311158516586);
    assert(ratio_after(524287, 9) == 323315401242583425022802937239550140918);
    assert(ratio_after(524287, 10) == 307179074178916392659402722612948179612);
    assert(ratio_after(524287, 11) == 277282266700509388632609933215391170106);
    assert(ratio_after(524287, 12) == 225934749830749445986089663015556949343);
    assert(ratio_after(524287, 13) == 150004713758184102711002566140788444796);
    assert(ratio_after(524287, 14) == 66122407008436832627027740713496573148);
    assert(ratio_after(524287, 15) == 12848018414553970828728179856918040433);
    assert(ratio_after(524287, 16) == 485077512873820763967752669154895175);
    assert(ratio_after(524287, 17) == 691450548841240133896843047535567);
    assert(ratio_after(524287, 18) == 1404950724947776134837143967);
    assert(ratio_after(524287, 19) == 1404950724947776134837143967);
}

/// The Q128.128 ratio after the bits `0..=k` of the absolute tick have been
/// applied: each set bit multiplies by its factor and drops 128 bits.
pub open spec fn ratio_after(abs: nat, k: nat) -> int
    decreases k,
{
    if k == 0 {
        if tick_bit(abs, 0) {
            ratio_base()
        } else {
            p128()
        }
    } else {
        let r = ratio_after(abs, (k - 1) as nat);
        if tick_bit(abs, k) {
            (r * tick_factor(k)) / p128()
        } else {
            r
        }
    }
}

/// The Q128.128 square-root ratio 1.0001^(tick/2): the product table is
/// that of a negative tick; a positive tick takes its reciprocal.
pub open spec fn sqrt_ratio_x128(tick: int) -> int {
    let r = ratio_after(tick_abs(tick), 19);
    if tick > 0 {
        (p256() - 1) / r
    } else {
        r
    }
}

/// The Q64.96 square-root price of a tick: the Q128.128 ratio divided by
/// 2^32, rounded up.
pub open spec fn spec_sqrt_price_at_tick(tick: int) -> int {
    let r = sqrt_ratio_x128(tick);
    r / 0x1_0000_0000 + if r % 0x1_0000_0000 == 0 {
        0int
    } else {
        1int
    }
}

proof fn lemma_tick_factor_bounds(k: nat)
    requires
        1 <= k <= 19,
    ensures
        0 < tick_factor(k) < p128(),
{
}

/// Bit `k` of a u32, as tested by a mask, is `tick_bit`.
proof fn lemma_tick_bit(a: u32, k: u32)
    requires
        k < 32,
    ensures
        ((a & (1u32 << k)) != 0) == tick_bit(a as nat, k as nat),
{
    assert(((a & (1u32 << k)) != 0) == ((a >> k) % 2 == 1)) by (bit_vector)
        requires
            k < 32,
    ;
    lemma_u32_shr_is_div(a, k);
}

/// Multiplying by a factor below 2^128 and dropping 128 bits never grows a
/// value.
proof fn lemma_scale_down(r: int, f: int)
    requires
        0 <= r,
        0 < f < p128(),
    ensures
        0 <= (r * f) / p128() <= r,
{
    lemma_mul_inequality(f, p128(), r);
    lemma_mul_is_commutative(f, r);
    lemma_mul_is_commutative(p128(), r);
    lemma_div_is_ordered(r * f, r * p128(), p128());
    lemma_div_by_multiple(r, p128());
    assert(0 <= r * f) by (nonlinear_arith)
        requires
            0 <= r,
            0 < f,
    ;
    lemma_div_is_ordered(0, r * f, p128());
}

/// Every intermediate ratio lies in [0, 2^128].
proof fn lemma_ratio_range(abs: nat, k: nat)
    requires
        k <= 19,
    ensures
        0 <= ratio_after(abs, k) <= p128(),
    decreases k,
{
    if k > 0 {
        lemma_ratio_range(abs, (k - 1) as nat);
        lemma_tick_factor_bounds(k);
        lemma_scale_down(ratio_after(abs, (k - 1) as nat), tick_factor(k));
    }
}

/// Clearing bits of the absolute tick never lowers the ratio.
proof fn lemma_ratio_monotone(a: nat, c: nat, k: nat)
    requires
        k <= 19,
        forall|j: nat| j <= k && #[trigger] tick_bit(a, j) ==> tick_bit(c, j),
    ensures
        ratio_after(a, k) >= ratio_after(c, k),
    decreases k,
{
    if k > 0 {
        lemma_ratio_monotone(a, c, (k - 1) as nat);
        let ra = ratio_after(a, (k - 1) as nat);
        let rc = ratio_after(c, (k - 1) as nat);
        lemma_ratio_range(a, (k - 1) as nat);
        lemma_ratio_range(c, (k - 1) as nat);
        lemma_tick_factor_bounds(k);
        let f = tick_factor(k);
        assert(tick_bit(a, k) ==> tick_bit(c, k));
        if tick_bit(a, k) {
            lemma_mul_inequality(rc, ra, f);
            lemma_div_is_ordered(rc * f, ra * f, p128());
        } else if tick_bit(c, k) {
            lemma_scale_down(rc, f);
        }
    } else {
        assert(tick_bit(a, 0) ==> tick_bit(c, 0));
    }
}

/// When `a` has no bit outside those of `c`, each bit of `a` is a bit of `c`.
proof fn lemma_bits_within(a: u32, c: u32)
    requires
        a & !c == 0,
    ensures
        forall|j: nat| j <= 19 && #[trigger] tick_bit(a as nat, j) ==> tick_bit(c as nat, j),
{
    assert forall|j: nat| j <= 19 && #[trigger] tick_bit(a as nat, j) implies tick_bit(
        c as nat,
        j,
    ) by {
        let k = j as u32;
        lemma_tick_bit(a, k);
        lemma_tick_bit(c, k);
        assert((a & !c) == 0 && (a & (1u32 << k)) != 0 ==> (c & (1u32 << k)) != 0)
            by (bit_vector);
    }
}

/// The ratio of any tick in range is at least that of `MAX_TICK`.
proof fn lemma_ratio_lower_bound(a: u32)
    requires
        a <= 887272,
    ensures
        ratio_after(a as nat, 19) >= 18447437462383981825,
{
    assert(a & !887272u32 == 0 || a & !887271u32 == 0 || a & !887263u32 == 0 || a & !887231u32
        == 0 || a & !887167u32 == 0 || a & !887039u32 == 0 || a & !886783u32 == 0 || a
        & !884735u32 == 0 || a & !851967u32 == 0 || a & !786431u32 == 0 || a & !524287u32 == 0)
        by (bit_vector)
        requires
            a <= 887272u32,
    ;
    if a & !887272u32 == 0 {
        lemma_bits_within(a, 887272);
        lemma_ratio_monotone(a as nat, 887272, 19);
        lemma_ratio_at_887272();
    } else if a & !887271u32 == 0 {
        lemma_bits_within(a, 887271);
        lemma_ratio_monotone(a as nat, 887271, 19);
        lemma_ratio_at_887271();
    } else if a & !887263u32 == 0 {
        lemma_bits_within(a, 887263);
        lemma_ratio_monotone(a as nat, 887263, 19);
        lemma_ratio_at_887263();
    } else if a & !887231u32 == 0 {
        lemma_bits_within(a, 887231);
        lemma_ratio_monotone(a as nat, 887231, 19);
        lemma_ratio_at_887231();
    } else if a & !887167u32 == 0 {
        lemma_bits_within(a, 887167);
        lemma_ratio_monotone(a as nat, 887167, 19);
        lemma_ratio_at_887167();
    } else if a & !887039u32 == 0 {
        lemma_bits_within(a, 887039);
        lemma_ratio_monotone(a as nat, 887039, 19);
        lemma_ratio_at_887039();
    } else if a & !886783u32 == 0 {
        lemma_bits_within(a, 886783);
        lemma_ratio_monotone(a as nat, 886783, 19);
        lemma_ratio_at_886783();
    } else if a & !884735u32 == 0 {
        lemma_bits_within(a, 884735);
        lemma_ratio_monotone(a as nat, 884735, 19);
        lemma_ratio_at_884735();
    } else if a & !851967u32 == 0 {
        lemma_bits_within(a, 851967);
        lemma_ratio_monotone(a as nat, 851967, 19);
        lemma_ratio_at_851967();
    } else if a & !786431u32 == 0 {
        lemma_bits_within(a, 786431);
        lemma_ratio_monotone(a as nat, 786431, 19);
        lemma_ratio_at_786431();
    } else {
        lemma_bits_within(a, 524287);
        lemma_ratio_monotone(a as nat, 524287, 19);
        lemma_ratio_at_524287();
    }
}

/// Every tick in `[-MAX_TICK, MAX_TICK]` has a square-root price within
/// `[MIN_SQRT_RATIO, MAX_SQRT_RATIO]`: positive, and small enough for 160
/// bits.
pub proof fn lemma_sqrt_price_at_tick_bounds(tick: int)
    requires
        -887272 <= tick <= 887272,
    ensures
        min_sqrt_ratio() <= spec_sqrt_price_at_tick(tick) <= max_sqrt_ratio(),
        max_sqrt_ratio() < p160(),
{
    let a = tick_abs(tick);
    lemma_ratio_lower_bound(a as u32);
    lemma_ratio_range(a, 19);
    let r = ratio_after(a, 19);
    let x = sqrt_ratio_x128(tick);
    let d = 0x1_0000_0000int;
    lemma_fundamental_div_mod(x, d);
    lemma_mod_bound(x, d);
    if tick > 0 {
        let rmin = 18447437462383981825int;
        lemma_div_is_ordered_by_denominator(p256() - 1, rmin, r);
        lemma_div_is_ordered_by_denominator(p256() - 1, r, p128());
        assert((p256() - 1) / rmin == 6276865796315986613307619852238232712866172378830071145882int);
        assert((p256() - 1) / p128() == p128() - 1);
        lemma_div_is_ordered(x, 6276865796315986613307619852238232712866172378830071145882int, d);
        lemma_div_is_ordered(p128() - 1, x, d);
    } else {
        lemma_div_is_ordered(18447437462383981825int, x, d);
        lemma_div_is_ordered(x, p128(), d);
    }
}


/// Ratios of two absolute ticks agree up to bit `k` when their bits do.
proof fn lemma_ratio_same_bits(a: nat, b: nat, k: nat)
    requires
        forall|i: nat| i <= k ==> #[trigger] tick_bit(a, i) == tick_bit(b, i),
    ensures
        ratio_after(a, k) == ratio_after(b, k),
    decreases k,
{
    if k > 0 {
        lemma_ratio_same_bits(a, b, (k - 1) as nat);
        assert(tick_bit(a, k) == tick_bit(b, k));
    } else {
        assert(tick_bit(a, 0) == tick_bit(b, 0));
    }
}

/// With no bit set up to `k`, the ratio is still 2^128.
proof fn lemma_ratio_no_bits(a: nat, k: nat)
    requires
        forall|i: nat| i <= k ==> !#[trigger] tick_bit(a, i),
    ensures
        ratio_after(a, k) == p128(),
    decreases k,
{
    if k > 0 {
        lemma_ratio_no_bits(a, (k - 1) as nat);
        assert(!tick_bit(a, k));
    } else {
        assert(!tick_bit(a, 0));
    }
}

/// The number of trailing one bits of `a`, searched from bit `j` on.
proof fn lemma_trailing_ones(a: u32, j: u32) -> (r: u32)
    requires
        j <= 20,
        a < 0xf_ffff,
        a & !(0xffff_ffffu32 << j) == !(0xffff_ffffu32 << j),
    ensures
        r < 20,
        a & !(0xffff_ffffu32 << r) == !(0xffff_ffffu32 << r),
        a & (1u32 << r) == 0,
    decreases 20 - j,
{
    if j == 20 {
        assert(false) by (bit_vector)
            requires
                j == 20,
                a < 0xf_ffff,
                a & !(0xffff_ffffu32 << j) == !(0xffff_ffffu32 << j),
        ;
        0
    } else if a & (1u32 << j) == 0 {
        j
    } else {
        assert(a & !(0xffff_ffffu32 << (j + 1) as u32) == !(0xffff_ffffu32 << (j + 1) as u32)) by (bit_vector)
            requires
                j < 20,
                a & !(0xffff_ffffu32 << j) == !(0xffff_ffffu32 << j),
                a & (1u32 << j) != 0,
        ;
        lemma_trailing_ones(a, (j + 1) as u32)
    }
}

/// The bits of `a + 1` where `a` ends in `j` one bits: those ones clear,
/// bit `j` set, the bits above as in `a`.
proof fn lemma_successor_bits(a: u32, b: u32, j: u32, i: u32)
    requires
        j < 20,
        i < 32,
        a < 0xf_ffff,
        b == a + 1,
        a & !(0xffff_ffffu32 << j) == !(0xffff_ffffu32 << j),
        a & (1u32 << j) == 0,
    ensures
        i < j ==> (a & (1u32 << i)) != 0 && (b & (1u32 << i)) == 0,
        i == j ==> (a & (1u32 << i)) == 0 && (b & (1u32 << i)) != 0,
        i > j ==> ((a & (1u32 << i)) != 0) == ((b & (1u32 << i)) != 0),
{
    assert(i < j ==> (a & (1u32 << i)) != 0 && (b & (1u32 << i)) == 0) by (bit_vector)
        requires
            j < 20,
            i < 32,
            a < 0xf_ffff,
            b == a + 1,
            a & !(0xffff_ffffu32 << j) == !(0xffff_ffffu32 << j),
            a & (1u32 << j) == 0,
    ;
    assert(i == j ==> (a & (1u32 << i)) == 0 && (b & (1u32 << i)) != 0) by (bit_vector)
        requires
            j < 20,
            i < 32,
            a < 0xf_ffff,
            b == a + 1,
            a & !(0xffff_ffffu32 << j) == !(0xffff_ffffu32 << j),
            a & (1u32 << j) == 0,
    ;
    assert(i > j ==> ((a & (1u32 << i)) != 0) == ((b & (1u32 << i)) != 0)) by (bit_vector)
        requires
            j < 20,
            i < 32,
            a < 0xf_ffff,
            b == a + 1,
            a & !(0xffff_ffffu32 << j) == !(0xffff_ffffu32 << j),
            a & (1u32 << j) == 0,
    ;
}

/// The relative gap kept between the ratios of neighbouring ticks:
/// one part in 2^22.
pub open spec fn gap_scale() -> int {
    0x40_0000
}

/// One truncated multiplication by a factor below 2^128 keeps a relative
/// gap between two ratios, losing at most one unit to the truncation.
proof fn lemma_gap_step(y: int, x: int, f: int, e: int)
    requires
        0 <= x,
        0 <= y,
        0 < f < p128(),
        e >= 0,
        gap_scale() * (y - x) >= y - gap_scale() * e,
    ensures
        gap_scale() * ((y * f) / p128() - (x * f) / p128()) >= (y * f) / p128() - gap_scale() * (e
            + 1),
{
    let p = p128();
    let d = gap_scale();
    let y2 = (y * f) / p;
    let x2 = (x * f) / p;
    let ry = (y * f) % p;
    let rx = (x * f) % p;
    lemma_fundamental_div_mod(y * f, p);
    lemma_fundamental_div_mod(x * f, p);
    lemma_mod_bound(y * f, p);
    lemma_mod_bound(x * f, p);
    let yf = y * f;
    let xf = x * f;
    assert(d * (y - x) * f >= (y - d * e) * f) by (nonlinear_arith)
        requires
            d * (y - x) >= y - d * e,
            f > 0,
    ;
    assert((y - d * e) * f == yf - d * e * f) by (nonlinear_arith)
        requires
            yf == y * f,
    ;
    assert(d * (y - x) * f == d * (yf - xf)) by (nonlinear_arith)
        requires
            yf == y * f,
            xf == x * f,
    ;
    assert(d * e * f <= d * e * p) by (nonlinear_arith)
        requires
            d > 0,
            e >= 0,
            f < p,
    ;
    assert(d * (yf - xf) == d * p * (y2 - x2) + d * (ry - rx)) by (nonlinear_arith)
        requires
            yf == p * y2 + ry,
            xf == p * x2 + rx,
    ;
    assert(d * (ry - rx) < d * p) by (nonlinear_arith)
        requires
            d > 0,
            0 <= rx,
            ry < p,
    ;
    assert(d * p * (y2 - x2) > p * y2 - d * e * p - d * p);
    assert(p * (d * (y2 - x2)) > p * (y2 - d * e - d)) by (nonlinear_arith)
        requires
            d * p * (y2 - x2) > p * y2 - d * e * p - d * p,
    ;
    assert(d * (y2 - x2) > y2 - d * e - d) by (nonlinear_arith)
        requires
            p * (d * (y2 - x2)) > p * (y2 - d * e - d),
            p > 0,
    ;
}

/// A relative gap between the ratios of two absolute ticks at bit `j`
/// lasts through the bits above, where the two agree, losing at most one
/// unit per bit.
proof fn lemma_gap_propagate(a: nat, b: nat, j: nat, k: nat)
    requires
        j <= k <= 19,
        forall|i: nat| j < i <= k ==> #[trigger] tick_bit(a, i) == tick_bit(b, i),
        gap_scale() * (ratio_after(a, j) - ratio_after(b, j)) >= ratio_after(a, j),
    ensures
        gap_scale() * (ratio_after(a, k) - ratio_after(b, k)) >= ratio_after(a, k) - gap_scale() * (
        k - j),
    decreases k - j,
{
    if k > j {
        let m = (k - 1) as nat;
        lemma_gap_propagate(a, b, j, m);
        assert(tick_bit(a, k) == tick_bit(b, k));
        lemma_ratio_range(a, m);
        lemma_ratio_range(b, m);
        if tick_bit(a, k) {
            lemma_tick_factor_bounds(k);
            lemma_gap_step(ratio_after(a, m), ratio_after(b, m), tick_factor(k), m - j);
        }
    }
}

/// The gap between the ratio of a tick ending in `j` one bits and that of
/// the next tick, once bit `j` is applied: the first has the factors of
/// bits `0..j`, the second only that of bit `j`.
proof fn lemma_base_gap(j: nat)
    requires
        j <= 19,
    ensures
        j == 0 ==> gap_scale() * (p128() - ratio_base()) >= p128(),
        j >= 1 ==> gap_scale() * (ratio_after(524287, (j - 1) as nat) - tick_factor(j))
            >= ratio_after(524287, (j - 1) as nat),
{
    lemma_ratio_at_524287();
    lemma2_to64();
    if j == 0 {
    } else if j == 1 {
    } else if j == 2 {
    } else if j == 3 {
    } else if j == 4 {
    } else if j == 5 {
    } else if j == 6 {
    } else if j == 7 {
    } else if j == 8 {
    } else if j == 9 {
    } else if j == 10 {
    } else if j == 11 {
    } else if j == 12 {
    } else if j == 13 {
    } else if j == 14 {
    } else if j == 15 {
    } else if j == 16 {
    } else if j == 17 {
    } else if j == 18 {
    } else {
    }
}

/// The ratio of an absolute tick in range exceeds that of the next one by
/// at least one part in 2^23.
proof fn lemma_neighbour_gap(a: u32)
    requires
        a <= 887271,
    ensures
        2 * gap_scale() * (ratio_after(a as nat, 19) - ratio_after((a + 1) as nat, 19))
            >= ratio_after(a as nat, 19),
        ratio_after(a as nat, 19) >= 18447437462383981825,
{
    let b: u32 = (a + 1) as u32;
    assert(a & !(0xffff_ffffu32 << 0u32) == !(0xffff_ffffu32 << 0u32)) by (bit_vector);
    let j = lemma_trailing_ones(a, 0);
    let jn = j as nat;
    assert forall|i: nat| i <= 19 implies (i < jn ==> #[trigger] tick_bit(a as nat, i) && !tick_bit(
        b as nat,
        i,
    )) && (i == jn ==> !tick_bit(a as nat, i) && tick_bit(b as nat, i)) && (i > jn ==> tick_bit(
        a as nat,
        i,
    ) == tick_bit(b as nat, i)) by {
        lemma_successor_bits(a, b, j, i as u32);
        lemma_tick_bit(a, i as u32);
        lemma_tick_bit(b, i as u32);
    }
    assert(tick_bit(a as nat, jn) == false);
    assert(tick_bit(b as nat, jn));
    if jn == 0 {
        lemma_base_gap(0);
    } else {
        let jm = (jn - 1) as nat;
        assert forall|i: nat| i <= jm implies #[trigger] tick_bit(a as nat, i) == tick_bit(524287, i) by {
            assert(tick_bit(a as nat, i));
            let iu = i as u32;
            lemma_tick_bit(524287u32, iu);
            assert(iu < 19 ==> 524287u32 & (1u32 << iu) != 0) by (bit_vector);
        }
        lemma_ratio_same_bits(a as nat, 524287, jm);
        assert forall|i: nat| i <= jm implies !#[trigger] tick_bit(b as nat, i) by {
            assert(i < jn);
            assert(tick_bit(a as nat, i));
        }
        lemma_ratio_no_bits(b as nat, jm);
        lemma_tick_factor_bounds(jn);
        lemma_mul_is_commutative(p128(), tick_factor(jn));
        lemma_div_by_multiple(tick_factor(jn), p128());
        assert(ratio_after(b as nat, jn) == tick_factor(jn));
        assert(ratio_after(a as nat, jn) == ratio_after(524287, jm));
        lemma_base_gap(jn);
    }
    assert forall|i: nat| jn < i <= 19 implies #[trigger] tick_bit(a as nat, i) == tick_bit(
        b as nat,
        i,
    ) by {
        assert(i <= 19);
    }
    lemma_gap_propagate(a as nat, b as nat, jn, 19);
    lemma_ratio_lower_bound(a);
    assert(b as nat == (a + 1) as nat);
    let y = ratio_after(a as nat, 19);
    let x = ratio_after(b as nat, 19);
    assert(gap_scale() * (y - x) >= y - gap_scale() * 19);
    assert(2 * gap_scale() * (y - x) >= y) by (nonlinear_arith)
        requires
            gap_scale() == 0x40_0000,
            gap_scale() * (y - x) >= y - gap_scale() * 19,
            y >= 18447437462383981825,
    ;
}

/// The reciprocals of two ratios a relative gap apart are far apart.
proof fn lemma_reciprocal_gap(x: int, y: int)
    requires
        0 < x < y <= p128(),
        2 * gap_scale() * (y - x) >= y,
    ensures
        (p256() - 1) / x - (p256() - 1) / y >= 0x100_0000_0000,
{
    let m = p256() - 1;
    let d2 = 2 * gap_scale();
    let qx = m / x;
    let qy = m / y;
    lemma_fundamental_div_mod(m, x);
    lemma_fundamental_div_mod(m, y);
    lemma_mod_bound(m, x);
    lemma_mod_bound(m, y);
    assert((qx + 1) * x > m) by (nonlinear_arith)
        requires
            m == x * qx + m % x,
            m % x < x,
    ;
    assert(qy * y <= m) by (nonlinear_arith)
        requires
            m == y * qy + m % y,
            m % y >= 0,
    ;
    let z = qx + 1 - qy;
    assert(z * x * y > m * (y - x)) by (nonlinear_arith)
        requires
            (qx + 1) * x > m,
            qy * y <= m,
            z == qx + 1 - qy,
            x > 0,
            y > 0,
    ;
    assert(m * (y - x) * d2 >= m * y) by (nonlinear_arith)
        requires
            d2 * (y - x) >= y,
            m > 0,
    ;
    assert(z * x * d2 * y > m * y) by (nonlinear_arith)
        requires
            z * x * y > m * (y - x),
            m * (y - x) * d2 >= m * y,
            d2 > 0,
    ;
    assert(z * x * d2 > m) by (nonlinear_arith)
        requires
            z * x * d2 * y > m * y,
            y > 0,
    ;
    assert(z > 0) by (nonlinear_arith)
        requires
            z * x * d2 > m,
            m > 0,
            x > 0,
            d2 > 0,
    ;
    assert(z * p128() * d2 >= z * x * d2) by (nonlinear_arith)
        requires
            z > 0,
            x <= p128(),
            d2 > 0,
    ;
    assert(z > 0x100_0000_0000) by (nonlinear_arith)
        requires
            z * p128() * d2 > m,
            d2 == 0x80_0000,
            p128() == 0x1_0000_0000_0000_0000_0000_0000_0000_0000,
            m == p256() - 1,
            p256() == 0x1_0000_0000_0000_0000_0000_0000_0000_0000_0000_0000_0000_0000_0000_0000_0000_0000,
    ;
}

/// Rounding up to a whole 2^32 keeps apart two values at least 2^32
/// apart.
proof fn lemma_ceil_increasing(u: int, v: int)
    requires
        0 <= u,
        u + 0x1_0000_0000 <= v,
    ensures
        u / 0x1_0000_0000 + (if u % 0x1_0000_0000 == 0 {
            0int
        } else {
            1int
        }) < v / 0x1_0000_0000 + (if v % 0x1_0000_0000 == 0 {
            0int
        } else {
            1int
        }),
{
    let d = 0x1_0000_0000int;
    lemma_fundamental_div_mod(u, d);
    lemma_fundamental_div_mod(v, d);
    lemma_mod_bound(u, d);
    lemma_mod_bound(v, d);
}

/// The square-root price of a tick is below that of the next tick.
proof fn lemma_sqrt_price_step(t: int)
    requires
        -887272 <= t < 887272,
    ensures
        spec_sqrt_price_at_tick(t) < spec_sqrt_price_at_tick(t + 1),
{
    if t < 0 {
        let a = (-t - 1) as u32;
        lemma_neighbour_gap(a);
        assert(tick_abs(t) == a + 1);
        assert(tick_abs(t + 1) == a);
        let y = ratio_after(a as nat, 19);
        let x = ratio_after((a + 1) as nat, 19);
        lemma_ratio_range((a + 1) as nat, 19);
        assert(x + 0x1_0000_0000 <= y) by (nonlinear_arith)
            requires
                2 * gap_scale() * (y - x) >= y,
                gap_scale() == 0x40_0000,
                y >= 18447437462383981825,
        ;
        lemma_ceil_increasing(x, y);
    } else {
        let a = t as u32;
        lemma_neighbour_gap(a);
        let y = ratio_after(a as nat, 19);
        let x = ratio_after((a + 1) as nat, 19);
        lemma_ratio_range(a as nat, 19);
        lemma_ratio_lower_bound((a + 1) as u32);
        assert(x < y) by (nonlinear_arith)
            requires
                2 * gap_scale() * (y - x) >= y,
                gap_scale() == 0x40_0000,
                y >= 18447437462383981825,
        ;
        lemma_reciprocal_gap(x, y);
        let m = p256() - 1;
        assert(sqrt_ratio_x128(t + 1) == m / x);
        if t == 0 {
            assert forall|i: nat| i <= 19 implies !#[trigger] tick_bit(0, i) by {
                lemma_pow2_pos(i);
            }
            lemma_ratio_no_bits(0, 19);
            assert(m / p128() == p128() - 1);
            assert(sqrt_ratio_x128(t) == p128());
        } else {
            assert(sqrt_ratio_x128(t) == m / y);
        }
        lemma_div_pos_is_pos(m, y);
        lemma_ceil_increasing(sqrt_ratio_x128(t), sqrt_ratio_x128(t + 1));
    }
}

/// The square-root price strictly grows with the tick over
/// `[-MAX_TICK, MAX_TICK]`.
pub proof fn lemma_sqrt_price_increasing(t1: int, t2: int)
    requires
        -887272 <= t1 < t2 <= 887272,
    ensures
        spec_sqrt_price_at_tick(t1) < spec_sqrt_price_at_tick(t2),
    decreases t2 - t1,
{
    lemma_sqrt_price_step(t2 - 1);
    if t1 < t2 - 1 {
        lemma_sqrt_price_increasing(t1, t2 - 1);
    }
}

/// The Q64.96 square-root price at a tick (Uniswap's `getSqrtRatioAtTick`),
/// or `TickOutOfBounds` when the tick lies outside `[-MAX_TICK, MAX_TICK]`.
pub fn sqrt_price_at_tick(tick: i32) -> (r: Result<U160, TickError>)
    requires
        I24_MIN < tick <= I24_MAX,
    ensures
        r is Ok <==> -MAX_TICK <= tick <= MAX_TICK,
        r is Ok ==> r->Ok_0.wf() && r->Ok_0@ == spec_sqrt_price_at_tick(tick as int),
        r is Err ==> r == Err::<U160, TickError>(TickError::TickOutOfBounds(tick)),
{
    let abs_tick: u32 = if tick < 0 {
        (-tick) as u32
    } else {
        tick as u32
    };
    if abs_tick > MAX_TICK as u32 {
        return Err(TickError::TickOutOfBounds(tick));
    }
    proof {
        lemma2_to64();
        lemma_pow2_values();
        lemma_tick_bit(abs_tick, 0);
        assert(1u32 << 0u32 == 1u32) by (bit_vector);
    }
    let mut ratio: U256 = if abs_tick & 1u32 != 0 {
        U256::from_u128(0xfffcb933bd6fad37aa2d162d1a594001)
    } else {
        U256::from_limbs([0, 0, 1, 0])
    };
    let mut k: u32 = 1;
    while k < 20
        invariant
            1 <= k <= 20,
            abs_tick <= 887272,
            abs_tick == tick_abs(tick as int),
            ratio@ == ratio_after(abs_tick as nat, (k - 1) as nat),
            pow2(128) == p128(),
        decreases 20 - k,
    {
        proof {
            lemma_ratio_range(abs_tick as nat, (k - 1) as nat);
            lemma_tick_bit(abs_tick, k);
        }
        if abs_tick & (1u32 << k) != 0 {
            let f = U256::from_u128(tick_factor_exec(k));
            proof {
                lemma_tick_factor_bounds(k as nat);
                assert(ratio@ * f@ < p256()) by (nonlinear_arith)
                    requires
                        0 <= ratio@ <= p128(),
                        0 <= f@ < p128(),
                        p256() == p128() * p128(),
                ;
                assert(0 <= ratio@ * f@) by (nonlinear_arith)
                    requires
                        0 <= ratio@,
                        0 <= f@,
                ;
            }
            ratio = ratio.wrapping_mul(f).shr(128);
        }
        k = k + 1;
    }
    proof {
        lemma_ratio_lower_bound(abs_tick);
        lemma_ratio_range(abs_tick as nat, 19);
        lemma_sqrt_price_at_tick_bounds(tick as int);
    }
    if tick > 0 {
        ratio = U256::max_value().div(ratio);
    }
    let low_bits = ratio.rem(U256::from_u64(0x1_0000_0000));
    let round_up = if low_bits.is_zero() {
        U256::zero()
    } else {
        U256::from_u64(1)
    };
    let sqrt_price = ratio.shr(32).wrapping_add(round_up);
    Ok(U160::from_u256(sqrt_price))
}

/// The lower boundary of a tick on the grid of the given spacing: the tick
/// rounded down to a multiple of the spacing, clamped to `-MAX_TICK`.
pub open spec fn spec_tick_low(tick: int, spacing: int) -> int {
    let t = (tick / spacing) * spacing;
    if t < -887272 {
        -887272
    } else {
        t
    }
}

/// The upper boundary of a tick on the grid: one spacing above the lower
/// boundary, clamped to `MAX_TICK`.
pub open spec fn spec_tick_high(tick: int, spacing: int) -> int {
    let t = spec_tick_low(tick, spacing) + spacing;
    if t > 887272 {
        887272
    } else {
        t
    }
}

proof fn lemma_grid_floor(tick: int, spacing: int)
    requires
        -887272 <= tick <= 887272,
        0 < spacing < 0x80_0000,
    ensures
        tick - spacing < (tick / spacing) * spacing <= tick,
        I24_MIN <= (tick / spacing) * spacing,
        -887273 <= tick / spacing <= 887272,
{
    lemma_fundamental_div_mod(tick, spacing);
    lemma_mod_bound(tick, spacing);
    lemma_mul_is_commutative(tick / spacing, spacing);
    let q = tick / spacing;
    assert(q * spacing + spacing == (q + 1) * spacing) by (nonlinear_arith);
    if q <= -2 {
        assert((q + 1) * spacing <= -spacing) by (nonlinear_arith)
            requires
                q <= -2,
                spacing > 0,
        ;
        assert((q + 1) * spacing <= q + 1) by (nonlinear_arith)
            requires
                q <= -2,
                spacing > 0,
        ;
    } else if q == -1 {
        assert(q * spacing == -spacing) by (nonlinear_arith)
            requires
                q == -1,
        ;
    } else {
        assert(q * spacing >= q) by (nonlinear_arith)
            requires
                q >= 0,
                spacing > 0,
        ;
    }
}

/// The lower grid boundary at or below `tick` for the given tick spacing.
pub fn tick_low(tick: i32, tick_spacing: u32) -> (r: Result<i32, TickError>)
    requires
        I24_MIN <= tick <= I24_MAX,
        0 < tick_spacing < 0x80_0000,
    ensures
        r is Ok <==> -MAX_TICK <= tick <= MAX_TICK,
        r is Ok ==> r->Ok_0 == spec_tick_low(tick as int, tick_spacing as int),
        r is Err ==> r == Err::<i32, TickError>(TickError::TickOutOfBounds(tick)),
{
    if tick < -MAX_TICK || tick > MAX_TICK {
        return Err(TickError::TickOutOfBounds(tick));
    }
    let spacing = tick_spacing as i32;
    proof {
        lemma_grid_floor(tick as int, spacing as int);
    }
    let q = tick.checked_div_euclid(spacing).unwrap();
    let t = q * spacing;
    if t < -MAX_TICK {
        Ok(-MAX_TICK)
    } else {
        Ok(t)
    }
}

/// The upper grid boundary above `tick` for the given tick spacing. One
/// spacing above the lower boundary always fits a signed 24-bit tick: a
/// positive lower boundary is at least one spacing, so the sum stays below
/// twice `MAX_TICK`.
pub fn tick_high(tick: i32, tick_spacing: u32) -> (r: Result<i32, TickError>)
    requires
        I24_MIN <= tick <= I24_MAX,
        0 < tick_spacing < 0x80_0000,
    ensures
        !(-MAX_TICK <= tick <= MAX_TICK) ==> r == Err::<i32, TickError>(
            TickError::TickOutOfBounds(tick),
        ),
        -MAX_TICK <= tick <= MAX_TICK ==> r == Ok::<i32, TickError>(
            spec_tick_high(tick as int, tick_spacing as int) as i32,
        ),
        -MAX_TICK <= tick <= MAX_TICK ==> spec_tick_low(tick as int, tick_spacing as int)
            + tick_spacing <= I24_MAX,
{
    let low = tick_low(tick, tick_spacing)?;
    let spacing = tick_spacing as i32;
    proof {
        lemma_tick_bounds_bracket(tick as int, tick_spacing as int);
        lemma_tick_low_room(tick as int, tick_spacing as int);
    }
    let t = low + spacing;
    if t > MAX_TICK {
        Ok(MAX_TICK)
    } else {
        Ok(t)
    }
}

/// A positive lower boundary is a positive multiple of the spacing, so one
/// spacing above the lower boundary stays within a signed 24-bit tick.
proof fn lemma_tick_low_room(tick: int, spacing: int)
    requires
        -887272 <= tick <= 887272,
        0 < spacing < 0x80_0000,
    ensures
        spec_tick_low(tick, spacing) + spacing <= I24_MAX,
{
    lemma_grid_floor(tick, spacing);
    let q = tick / spacing;
    if q >= 1 {
        assert(q * spacing >= spacing) by (nonlinear_arith)
            requires
                q >= 1,
                spacing > 0,
        ;
    } else {
        assert(q * spacing <= 0) by (nonlinear_arith)
            requires
                q <= 0,
                spacing > 0,
        ;
    }
}

/// The grid boundaries bracket the tick: `-MAX_TICK <= tick_low <= tick <=
/// tick_high <= MAX_TICK`, at most one spacing apart, and an unclamped lower
/// boundary is a multiple of the spacing.
pub proof fn lemma_tick_bounds_bracket(tick: int, spacing: int)
    requires
        -887272 <= tick <= 887272,
        0 < spacing < 0x80_0000,
    ensures
        -887272 <= spec_tick_low(tick, spacing) <= tick,
        tick <= spec_tick_high(tick, spacing) <= 887272,
        spec_tick_high(tick, spacing) - spec_tick_low(tick, spacing) <= spacing,
        spec_tick_low(tick, spacing) > -887272 ==> spec_tick_low(tick, spacing) % spacing == 0,
        tick < spec_tick_low(tick, spacing) + spacing,
{
    lemma_grid_floor(tick, spacing);
    let q = tick / spacing;
    if spec_tick_low(tick, spacing) > -887272 {
        vstd::arithmetic::div_mod::lemma_mod_multiples_basic(q, spacing);
    }
}

} // verus!
