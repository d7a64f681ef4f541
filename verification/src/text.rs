//! The lines that the game writes to its log. Each has its text as a
//! specification and a function that builds it.

use vstd::prelude::*;
use vstd::string::*;

verus! {

/// The decimal digits of `n`, with a leading minus sign if it is negative.
pub uninterp spec fn decimal(n: int) -> Seq<char>;

/// Formats `n` the way `i32`'s `Display` does, through `format!`. That
/// output is taken to be a function of the number alone and is called
/// `decimal(n)`; nothing else is claimed of it.
#[verifier::external_body]
pub(crate) fn decimal_string(n: i32) -> (s: String)
    ensures
        s@ == decimal(n as int),
{
    format!("{}", n)
}

pub open spec fn spec_you_are_dead_line() -> Seq<char> {
    "You are dead!"@
}

pub fn you_are_dead_line() -> (s: String)
    ensures
        s@ == spec_you_are_dead_line(),
{
    String::from_str("You are dead!")
}

pub open spec fn spec_died_line(name: Seq<char>) -> Seq<char> {
    name + " has died!"@
}

pub fn died_line(name: &String) -> (s: String)
    ensures
        s@ == spec_died_line(name@),
{
    name.clone().concat(" has died!")
}


pub open spec fn spec_unable_to_hurt_line(attacker: Seq<char>, target: Seq<char>) -> Seq<char> {
    attacker + " is unable to hurt "@ + target + "."@
}

pub fn unable_to_hurt_line(attacker: &String, target: &String) -> (s: String)
    ensures
        s@ == spec_unable_to_hurt_line(attacker@, target@),
{
    attacker.clone().concat(" is unable to hurt ").concat(target.as_str()).concat(".")
}

pub open spec fn spec_hits_line(attacker: Seq<char>, target: Seq<char>, damage: int) -> Seq<char> {
    attacker + " hits "@ + target + " for "@ + decimal(damage) + " damage!"@
}

pub fn hits_line(attacker: &String, target: &String, damage: i32) -> (s: String)
    ensures
        s@ == spec_hits_line(attacker@, target@, damage as int),
{
    let amount = decimal_string(damage);
    attacker.clone().concat(" hits ").concat(target.as_str()).concat(" for ").concat(
        amount.as_str(),
    ).concat(" damage!")
}


pub open spec fn spec_pick_up_line(item: Seq<char>) -> Seq<char> {
    "You pick up the "@ + item
}

pub fn pick_up_line(item: &String) -> (s: String)
    ensures
        s@ == spec_pick_up_line(item@),
{
    String::from_str("You pick up the ").concat(item.as_str())
}

pub open spec fn spec_drop_line(item: Seq<char>) -> Seq<char> {
    "You drop the "@ + item + "."@
}

pub fn drop_line(item: &String) -> (s: String)
    ensures
        s@ == spec_drop_line(item@),
{
    String::from_str("You drop the ").concat(item.as_str()).concat(".")
}

pub open spec fn spec_drink_line(item: Seq<char>, amount: int) -> Seq<char> {
    "You drink the "@ + item + ", healing "@ + decimal(amount) + " hp."@
}

pub fn drink_line(item: &String, amount: i32) -> (s: String)
    ensures
        s@ == spec_drink_line(item@, amount as int),
{
    let number = decimal_string(amount);
    String::from_str("You drink the ").concat(item.as_str()).concat(", healing ").concat(
        number.as_str(),
    ).concat(" hp.")
}

pub open spec fn spec_inflict_line(item: Seq<char>, target: Seq<char>, amount: int) -> Seq<char> {
    "You use "@ + item + " on "@ + target + ", inflicting "@ + decimal(amount) + " damage."@
}

pub fn inflict_line(item: &String, target: &String, amount: i32) -> (s: String)
    ensures
        s@ == spec_inflict_line(item@, target@, amount as int),
{
    let number = decimal_string(amount);
    String::from_str("You use ").concat(item.as_str()).concat(" on ").concat(
        target.as_str(),
    ).concat(", inflicting ").concat(number.as_str()).concat(" damage.")
}

pub open spec fn spec_confuse_line(item: Seq<char>, target: Seq<char>) -> Seq<char> {
    "You use "@ + item + " on "@ + target + ", confusing them."@
}

pub fn confuse_line(item: &String, target: &String) -> (s: String)
    ensures
        s@ == spec_confuse_line(item@, target@),
{
    String::from_str("You use ").concat(item.as_str()).concat(" on ").concat(
        target.as_str(),
    ).concat(", confusing them.")
}

pub open spec fn spec_nothing_to_pick_up_line() -> Seq<char> {
    "There is nothing to pick up."@
}

pub fn nothing_to_pick_up_line() -> (s: String)
    ensures
        s@ == spec_nothing_to_pick_up_line(),
{
    String::from_str("There is nothing to pick up.")
}

pub open spec fn spec_no_way_down_line() -> Seq<char> {
    "There is no way down from here."@
}

pub fn no_way_down_line() -> (s: String)
    ensures
        s@ == spec_no_way_down_line(),
{
    String::from_str("There is no way down from here.")
}

pub open spec fn spec_descend_line() -> Seq<char> {
    "You descend to the next level, and take a moment to heal."@
}

pub fn descend_line() -> (s: String)
    ensures
        s@ == spec_descend_line(),
{
    String::from_str("You descend to the next level, and take a moment to heal.")
}


/// The code that `rltk::to_cp437` gives the character `c` in code page 437.
pub uninterp spec fn cp437(c: char) -> u16;

/// Looks up a character's glyph with `rltk::to_cp437`, a fixed table from
/// characters to codes. Its result is called `cp437(c)`; nothing else is
/// claimed of it.
#[verifier::external_body]
pub(crate) fn to_cp437(c: char) -> (glyph: u16)
    ensures
        glyph == cp437(c),
{
    rltk::to_cp437(c)
}

} // verus!
