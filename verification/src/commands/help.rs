//! The `help` command: the category menu, its author line and its footer.

use vstd::prelude::*;
use vstd::string::*;
use rand::seq::IndexedRandom;
use crate::config::commands::{cat_emoji, table_view, Category, Command, CommandConfig, CommandRegistry};
use crate::text::{push_str, string_of};
use crate::timestamp::{lowercase, to_lowercase};

verus! {

broadcast use vstd::string::group_string_axioms;

/// The id of the help menu: the help command's configured action, or
/// `help_menu`.
pub fn help_menu_id(help: &CommandConfig) -> (r: String)
    ensures
        r@ == match help.action {
            Some(a) => a@,
            None => "help_menu"@,
        },
{
    match &help.action {
        Some(a) => a.clone(),
        None => String::from_str("help_menu"),
    }
}

/// The menu entry of category `cat`: its label (emoji and name) and its value
/// (the name in lower case).
pub open spec fn menu_option(cat: Category) -> (Seq<char>, Seq<char>) {
    (cat_emoji(cat) + seq![' '] + cat.name_spec(), lowercase(cat.name_spec()))
}

/// The menu entries, one per category that has commands, in the registry's
/// category order.
pub fn help_menu_options(registry: &CommandRegistry) -> (r: Vec<(String, String)>)
    ensures
        r@.len() == registry.categories@.len(),
        forall|i: int|
            0 <= i < r@.len() ==> (#[trigger] r@[i]).0@ == menu_option(registry.categories@[i].0).0
                && r@[i].1@ == menu_option(registry.categories@[i].0).1,
{
    let mut r: Vec<(String, String)> = Vec::new();
    let mut i: usize = 0;
    while i < registry.categories.len()
        invariant
            i <= registry.categories@.len(),
            r@.len() == i,
            forall|k: int|
                0 <= k < i ==> (#[trigger] r@[k]).0@ == menu_option(registry.categories@[k].0).0
                    && r@[k].1@ == menu_option(registry.categories@[k].0).1,
        decreases registry.categories@.len() - i,
    {
        let cat = registry.categories[i].0;
        let name = cat.name();
        let mut label: Vec<char> = Vec::new();
        push_str(&mut label, registry.get_cat_emoji(&cat));
        label.push(' ');
        push_str(&mut label, name);
        let value = to_lowercase(name);
        r.push((string_of(label.as_slice()), value));
        i += 1;
    }
    r
}

/// The author line of the help message: the bot's name and a heart.
pub fn help_author_name(bot_name: &str) -> (r: String)
    ensures
        r@ == bot_name@ + " 💖"@,
{
    let mut m: Vec<char> = Vec::new();
    push_str(&mut m, bot_name);
    push_str(&mut m, " 💖");
    string_of(m.as_slice())
}

/// `IndexedRandom::choose` with the thread's generator. Claimed: `None`
/// exactly when `items` is empty, otherwise one of its items; which one is
/// chance and is not stated.
#[verifier::external_body]
fn choose_item(items: &Vec<String>) -> (r: Option<&String>)
    ensures
        r is None <==> items@.len() == 0,
        r matches Some(x) ==> items@.contains(*x),
{
    items.choose(&mut rand::rng())
}

/// The footer of the help message: one of the "built" quotes at random, or
/// nothing when there are none.
pub fn help_footer_quote(quotes: &Vec<String>) -> (r: String)
    ensures
        quotes@.len() == 0 ==> r@ == Seq::<char>::empty(),
        quotes@.len() > 0 ==> exists|i: int| 0 <= i < quotes@.len() && r@ == quotes@[i]@,
{
    match choose_item(quotes) {
        Some(q) => q.clone(),
        None => String::new(),
    }
}

} // verus!
