//! Choosing the frequency bins that are drawn as rotating vectors, in the
//! order in which they are drawn.
//!
//! A spectrum of `n` bins holds frequency `k` at index `k` and frequency `-k`
//! at index `n - k`. The list begins with frequency 0 and goes on in pairs:
//! `+1, -1, +2, -2, ...`, so that a shorter list is a prefix of a longer one.

use vstd::prelude::*;

verus! {

/// One rotating vector: how often it turns per period, and in which direction,
/// together with the coefficient of its bin.
#[derive(Clone, Copy, Debug, PartialEq)]
pub struct FrequencyComponent<T> {
    pub frequency: i64,
    pub coefficient: T,
}

/// `wave_count`, cut down to the number of bins where it exceeds it.
pub open spec fn clamped_wave_count(wave_count: nat, bins: nat) -> nat {
    if wave_count > bins {
        bins
    } else {
        wave_count
    }
}

/// The number of components drawn for `wave_count` waves over `bins` bins:
/// frequency 0 and one pair for every two waves.
pub open spec fn component_count(wave_count: nat, bins: nat) -> nat {
    2 * (clamped_wave_count(wave_count, bins) / 2) + 1
}

/// The frequency at place `j` of the list: `0, +1, -1, +2, -2, ...`.
pub open spec fn frequency_at(j: int) -> int {
    if j % 2 == 1 {
        (j + 1) / 2
    } else {
        -(j / 2)
    }
}

/// The bin that holds the frequency at place `j` of the list.
pub open spec fn bin_at(bins: nat, j: int) -> int {
    if frequency_at(j) >= 0 {
        frequency_at(j)
    } else {
        bins + frequency_at(j)
    }
}

/// The component at place `j` of the list.
pub open spec fn component_at<T>(spectrum: Seq<T>, j: int) -> FrequencyComponent<T> {
    FrequencyComponent {
        frequency: frequency_at(j) as i64,
        coefficient: spectrum[bin_at(spectrum.len(), j)],
    }
}

/// The components drawn for `wave_count` waves, in drawing order.
pub open spec fn components<T>(spectrum: Seq<T>, wave_count: nat) -> Seq<FrequencyComponent<T>> {
    Seq::new(component_count(wave_count, spectrum.len()), |j: int| component_at(spectrum, j))
}

/// Asking for more waves than there are bins gives what asking for all of
/// them gives.
pub proof fn lemma_clamp<T>(spectrum: Seq<T>, wave_count: nat)
    requires
        wave_count > spectrum.len(),
    ensures
        components(spectrum, wave_count) == components(spectrum, spectrum.len()),
{
}

/// Fewer waves only shorten the list: what remains is unchanged and in the
/// same order.
pub proof fn lemma_truncation<T>(spectrum: Seq<T>, fewer: nat, more: nat)
    requires
        fewer <= more,
    ensures
        components(spectrum, fewer).len() <= components(spectrum, more).len(),
        components(spectrum, fewer) == components(spectrum, more).subrange(
            0,
            components(spectrum, fewer).len() as int,
        ),
{
    assert(components(spectrum, fewer) =~= components(spectrum, more).subrange(
        0,
        components(spectrum, fewer).len() as int,
    ));
}

/// Every component of the list reads a bin of the spectrum, and its
/// frequency stays within half the number of bins.
pub proof fn lemma_component_in_range(bins: nat, wave_count: nat, j: int)
    requires
        bins > 0,
        0 <= j < component_count(wave_count, bins),
    ensures
        0 <= bin_at(bins, j) < bins,
        -(bins / 2) <= frequency_at(j) <= bins / 2,
{
}

/// The smaller of `wave_count` and `sample_count`.
pub fn clamp_wave_count(wave_count: usize, sample_count: usize) -> (w: usize)
    ensures
        w == clamped_wave_count(wave_count as nat, sample_count as nat),
{
    if wave_count > sample_count {
        sample_count
    } else {
        wave_count
    }
}

/// Lists the components to draw for `wave_count` waves: frequency 0 first,
/// then `+i` and `-i` for each `i` from 1 to half the wave count, which is
/// first cut down to the number of bins.
pub fn extract_components<T: Copy>(spectrum: &Vec<T>, wave_count: usize) -> (list: Vec<
    FrequencyComponent<T>,
>)
    requires
        spectrum@.len() > 0,
    ensures
        list@ == components(spectrum@, wave_count as nat),
{
    let bins: usize = spectrum.len();
    let pairs: usize = clamp_wave_count(wave_count, bins) / 2;
    let mut list: Vec<FrequencyComponent<T>> = Vec::new();
    list.push(FrequencyComponent { frequency: 0, coefficient: spectrum[0] });
    let mut i: usize = 1;
    while i <= pairs
        invariant
            bins == spectrum@.len(),
            pairs <= bins / 2,
            1 <= i <= pairs + 1,
            list@.len() == 2 * i - 1,
            forall|j: int| 0 <= j < list@.len() ==> list@[j] == component_at(spectrum@, j),
        decreases pairs + 1 - i,
    {
        list.push(FrequencyComponent { frequency: i as i64, coefficient: spectrum[i] });
        list.push(FrequencyComponent { frequency: -(i as i64), coefficient: spectrum[bins - i] });
        i = i + 1;
    }
    assert(list@ =~= components(spectrum@, wave_count as nat));
    list
}

} // verus!
