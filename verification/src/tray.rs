//! The texts of the tray icon.
use vstd::prelude::*;

use crate::text::{chars_of, same};

verus! {

/// The labels of the tray for `locale`: the entry that shows the window, the
/// entry that quits, and the tooltip. Spanish for `es`, English otherwise.
pub open spec fn tray_labels_spec(locale: Seq<char>) -> (Seq<char>, Seq<char>, Seq<char>) {
    if locale == "es"@ {
        ("Mostrar LinkRouter"@, "Salir"@, "LinkRouter \u{2014} selector de navegador"@)
    } else {
        ("Show LinkRouter"@, "Quit"@, "LinkRouter \u{2014} browser selector"@)
    }
}

/// The labels of the tray for `locale`: the entry that shows the window, the
/// entry that quits, and the tooltip.
pub fn tray_labels(locale: &str) -> (r: (&'static str, &'static str, &'static str))
    ensures
        (r.0@, r.1@, r.2@) == tray_labels_spec(locale@),
{
    if same(&chars_of(locale), &chars_of("es")) {
        ("Mostrar LinkRouter", "Salir", "LinkRouter \u{2014} selector de navegador")
    } else {
        ("Show LinkRouter", "Quit", "LinkRouter \u{2014} browser selector")
    }
}

} // verus!
