//! The menu-bar icon's badge.

use vstd::prelude::*;
use crate::text::{concat, decimal, decimal_string};
use crate::db::{waiting_count, lemma_waiting_count_counts};

verus! {

/// Id of the menu-bar icon.
pub const TRAY_ID: &'static str = "workbench";

/// The title beside the icon and its tooltip for `count` pull requests
/// waiting on you.
pub open spec fn badge_spec(count: i64) -> (Option<Seq<char>>, Seq<char>) {
    if count > 0 {
        (Some(decimal(count as int)), "Workbench — "@ + decimal(count as int) + " waiting on you"@)
    } else {
        (None, "Workbench"@)
    }
}

/// Puts the "needs you" count beside the menu-bar icon. Zero shows nothing
/// at all — an empty desk should look empty.
pub fn badge(count: i64) -> (r: (Option<String>, String))
    ensures
        (r.0.deep_view(), r.1@) == badge_spec(count),
{
    if count > 0 {
        let n = decimal_string(count);
        let mut tip = concat("Workbench — ", n.as_str());
        tip.append(" waiting on you");
        (Some(n), tip)
    } else {
        (None, String::from_str("Workbench"))
    }
}


/// Any count above zero is shown, in digits, beside the icon and in the
/// tooltip; zero or less shows nothing but the app's name.
pub proof fn lemma_badge_shows_the_count(count: i64)
    ensures
        badge_spec(count).0 is Some <==> count > 0,
        count > 0 ==> badge_spec(count).0 == Some(decimal(count as int)),
        count > 0 ==> badge_spec(count).1 == "Workbench — "@ + decimal(count as int) + " waiting on you"@,
        count <= 0 ==> badge_spec(count).1 == "Workbench"@,
{
}

/// The badge of a desk shows a number exactly when at least one pull request
/// you did not open asks your review or mentions you.
pub proof fn lemma_badge_of_a_desk(rels: Seq<(bool, bool, bool)>)
    requires
        rels.len() <= i64::MAX,
    ensures
        badge_spec(waiting_count(rels) as i64).0 is Some
            <==> exists|i: int| 0 <= i < rels.len() && !(#[trigger] rels[i]).0 && (rels[i].1 || rels[i].2),
    decreases rels.len(),
{
    lemma_waiting_count_counts(rels, (false, false, false));
    if rels.len() > 0 {
        let pre = rels.drop_last();
        lemma_badge_of_a_desk(pre);
        lemma_waiting_count_counts(pre, rels.last());
        assert(pre.push(rels.last()) =~= rels);
        assert forall|i: int| 0 <= i < pre.len() implies #[trigger] pre[i] == rels[i] by {}
        if exists|i: int| 0 <= i < pre.len() && !(#[trigger] pre[i]).0 && (pre[i].1 || pre[i].2) {
            let i = choose|i: int| 0 <= i < pre.len() && !(#[trigger] pre[i]).0 && (pre[i].1 || pre[i].2);
            assert(rels[i] == pre[i]);
        }
        if exists|i: int| 0 <= i < rels.len() && !(#[trigger] rels[i]).0 && (rels[i].1 || rels[i].2) {
            let i = choose|i: int| 0 <= i < rels.len() && !(#[trigger] rels[i]).0 && (rels[i].1 || rels[i].2);
            if i < pre.len() {
                assert(pre[i] == rels[i]);
            } else {
                assert(rels[i] == rels.last());
            }
        }
    } else {
        assert(rels =~= Seq::<(bool, bool, bool)>::empty());
    }
}

} // verus!
