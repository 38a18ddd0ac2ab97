//! What written numbers, trimmed texts and provider names stand for.
use crate::binary32::Binary32;
use crate::numeral::{numeral, signed_numeral};
use crate::plugins::{available, display_name, kind_named, trimmed, white_space, PluginKind};
use crate::text::{decimal, digit, joined_decimals, signed_decimal};
use vstd::prelude::*;

verus! {

/// The number that a text of decimal digits stands for.
pub open spec fn read_back(text: Seq<char>) -> int
    decreases text.len(),
{
    if text.len() == 0 {
        0
    } else {
        10 * read_back(text.drop_last()) + (text.last() as u32 - 48)
    }
}

/// A number written in decimal can be read back, has only digits, and has no
/// leading zero unless it is zero.
pub proof fn law_written_numbers_can_be_read_back(n: nat)
    ensures
        read_back(decimal(n)) == n,
        decimal(n).len() > 0,
        n > 0 ==> decimal(n)[0] != '0',
        n == 0 ==> decimal(n) == seq!['0'],
        forall|i: int| 0 <= i < decimal(n).len() ==> '0' <= #[trigger] decimal(n)[i] <= '9',
    decreases n,
{
    if n < 10 {
        assert(decimal(n).drop_last() =~= Seq::<char>::empty());
        reveal_with_fuel(read_back, 2);
    } else {
        law_written_numbers_can_be_read_back(n / 10);
        assert(decimal(n).drop_last() =~= decimal(n / 10));
        assert(decimal(n).last() == digit(n % 10));
    }
}

/// A negative number has a minus before its size, and others no sign.
pub proof fn law_sign_stands_before_the_size(n: int)
    ensures
        n < 0 ==> signed_decimal(n) == seq!['-'] + decimal((-n) as nat),
        n >= 0 ==> signed_decimal(n) == decimal(n as nat),
{
    reveal_strlit("-");
    assert("-"@ =~= seq!['-']);
}

/// A list is written with its numbers in order and a comma and a space between
/// them.
pub proof fn law_lists_are_written_in_order(items: Seq<u8>, more: Seq<u8>)
    requires
        items.len() > 0,
        more.len() > 0,
    ensures
        joined_decimals(items + more) == joined_decimals(items) + seq![',', ' '] + joined_decimals(more),
        items.len() == 1 ==> joined_decimals(items) == decimal(items[0] as nat),
    decreases more.len(),
{
    reveal_strlit(", ");
    assert(", "@ =~= seq![',', ' ']);
    let all = items + more;
    assert(all.drop_last() =~= items + more.drop_last());
    assert(all.last() == more.last());
    if more.len() == 1 {
        assert(items + more.drop_last() =~= items);
        assert(joined_decimals(all) =~= joined_decimals(items) + seq![',', ' '] + joined_decimals(more));
    } else {
        law_lists_are_written_in_order(items, more.drop_last());
        assert(joined_decimals(all) =~= joined_decimals(items) + seq![',', ' '] + joined_decimals(more));
    }
}

/// Trimming takes away whitespace at both ends and nothing else.
pub proof fn law_trimming_takes_only_whitespace(text: Seq<char>) -> (ends: (Seq<char>, Seq<char>))
    ensures
        text == ends.0 + trimmed(text) + ends.1,
        forall|i: int| 0 <= i < ends.0.len() ==> white_space(#[trigger] ends.0[i]),
        forall|i: int| 0 <= i < ends.1.len() ==> white_space(#[trigger] ends.1[i]),
        white_space(' ') && white_space('\t') && white_space('\n') && white_space('\r'),
        !white_space('0') && !white_space('.') && !white_space('a'),
    decreases text.len(),
{
    let none = Seq::<char>::empty();
    if text.len() > 0 && white_space(text.first()) {
        let (before, after) = law_trimming_takes_only_whitespace(text.drop_first());
        let ends = (seq![text.first()] + before, after);
        let kept = trimmed(text);
        assert(kept == trimmed(text.drop_first()));
        assert(text =~= seq![text.first()] + text.drop_first());
        assert(seq![text.first()] + (before + kept + after) =~= ends.0 + kept + ends.1);
        ends
    } else if text.len() > 0 && white_space(text.last()) {
        let (before, after) = law_trimming_takes_only_whitespace(text.drop_last());
        let ends = (before, after.push(text.last()));
        let kept = trimmed(text);
        assert(kept == trimmed(text.drop_last()));
        assert(text =~= text.drop_last().push(text.last()));
        assert((before + kept + after).push(text.last()) =~= ends.0 + kept + ends.1);
        ends
    } else {
        assert(text =~= none + trimmed(text) + none);
        (none, none)
    }
}

/// Only one provider depends on the platform: it exists on Windows alone.
pub proof fn law_providers_exist_on_their_platforms(kind: PluginKind, on_windows: bool)
    ensures
        on_windows || kind != PluginKind::AssettoCompetizione ==> available(Some(kind), on_windows) == Some(kind),
        !on_windows && kind == PluginKind::AssettoCompetizione ==> available(Some(kind), on_windows) is None,
        available(None, on_windows) is None,
{
}

/// Every provider can be named by its id and by its other names.
pub proof fn law_other_names_stand_for_the_same_provider()
    ensures
        kind_named("assetto_competizione"@) == Some(PluginKind::AssettoCompetizione),
        kind_named("assetto corsa competizione"@) == Some(PluginKind::AssettoCompetizione),
        kind_named("acc"@) == Some(PluginKind::AssettoCompetizione),
        kind_named("ams2"@) == Some(PluginKind::Ams2),
        kind_named("automobilista 2"@) == Some(PluginKind::Ams2),
        kind_named("automobilista2"@) == Some(PluginKind::Ams2),
        kind_named("iracing"@) == Some(PluginKind::Iracing),
        kind_named("iracing_sdk"@) == Some(PluginKind::Iracing),
        kind_named("f1"@) == Some(PluginKind::F1),
        kind_named("f1_25"@) == Some(PluginKind::F1),
        kind_named("f1 25"@) == Some(PluginKind::F1),
        kind_named("f1 2026"@) == Some(PluginKind::F1),
        kind_named("mock"@) == Some(PluginKind::Mock),
        kind_named("test"@) == Some(PluginKind::Mock),
{
    crate::plugins::lemma_known_names();
}

/// A name that stands for no provider is shown as it is.
pub proof fn law_unknown_provider_is_shown_as_it_is(id: Seq<char>)
    requires
        kind_named(id) is None,
    ensures
        display_name(id) == id,
{
}

/// A number is written with a minus if it is negative, and where signs are
/// wanted with a plus otherwise.
pub proof fn law_signs_are_written(x: Binary32)
    requires
        !x.nan(),
    ensures
        x.negative() ==> signed_numeral(x) == numeral(x) && numeral(x)[0] == '-',
        !x.negative() ==> signed_numeral(x) == seq!['+'] + numeral(x),
        x.negative() ==> numeral(x) == seq!['-'] + numeral(x.absolute()),
{
    reveal_strlit("-");
    reveal_strlit("+");
    assert("-"@ =~= seq!['-']);
    assert("+"@ =~= seq!['+']);
    x.lemma_parts();
    x.absolute().lemma_parts();
}

} // verus!
