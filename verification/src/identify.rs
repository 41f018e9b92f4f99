//! Telling a device by the strings it reports.

use vstd::prelude::*;
use crate::protocol::{added, extends, lemma_added_nothing, lemma_added_push};
use crate::transport::Recorded;

verus! {

/// The two strings that tell a device.
#[derive(Debug, Clone, Copy, PartialEq, Eq, Structural)]
pub enum Label {
    Manufacturer,
    Product,
}

/// What stands for a string that could not be read.
pub open spec fn missing() -> Seq<char> {
    "Not Found"@
}

/// The text that a read gave: the string, or `missing()` where the read failed.
pub open spec fn shown(read: Option<String>) -> Seq<char> {
    match read {
        Some(text) => text@,
        None => missing(),
    }
}

/// Compares an expected string with what reading it from the device gave.
/// A string that could not be read counts as the text "Not Found".
pub fn label_matches(expected: &str, read: Option<String>) -> (r: bool)
    ensures
        r == (expected@ == shown(read)),
{
    let wanted: String = expected.to_owned();
    let found: String = match read {
        Some(text) => text,
        None => "Not Found".to_owned(),
    };
    wanted == found
}

/// Whether `r` is an answer that `is_correct_device` may give.
///
/// A device that offers no language is never the wanted one. Else it is the
/// wanted one exactly if its manufacturer string, as `read` gave it, is the
/// expected one, and then its product string too. The product string is read
/// only where the manufacturer string matched.
pub open spec fn identified<F: Fn(Label) -> Option<String>>(
    readable: bool,
    manufacturer: Seq<char>,
    product: Seq<char>,
    read: F,
    r: bool,
) -> bool {
    if !readable {
        !r
    } else {
        exists|m: Option<String>|
            call_ensures(read, (Label::Manufacturer,), m) && if shown(m) != manufacturer {
                !r
            } else {
                exists|p: Option<String>|
                    call_ensures(read, (Label::Product,), p) && r == (shown(p) == product)
            }
    }
}

/// Whether `calls` are the reads that telling a device takes: none where the
/// device is not readable; else the manufacturer string, and after it the
/// product string exactly if the manufacturer string is the expected one;
/// each once, and nothing else.
pub open spec fn reads(
    readable: bool,
    manufacturer: Seq<char>,
    calls: Seq<(Label, Option<String>)>,
) -> bool {
    if !readable {
        calls.len() == 0
    } else {
        &&& calls.len() >= 1
        &&& calls[0].0 == Label::Manufacturer
        &&& if shown(calls[0].1) == manufacturer {
            calls.len() == 2 && calls[1].0 == Label::Product
        } else {
            calls.len() == 1
        }
    }
}

/// Tests whether an opened device reports the expected manufacturer and
/// product strings.
///
/// `readable` says whether the device's descriptor and its list of languages
/// could be read and the list is not empty; `reader` reads one of the two
/// strings in the first language, or gives `None` where that fails.
///
/// The manufacturer string is read first, once; the product string is read,
/// once, only if the manufacturer string is the expected one. A device that
/// is not readable is not read from.
pub fn is_correct_device<F: Fn(Label) -> Option<String>>(
    readable: bool,
    manufacturer: &str,
    product: &str,
    reader: &mut Recorded<Label, Option<String>, F>,
) -> (r: bool)
    requires
        readable ==> call_requires(old(reader).function(), (Label::Manufacturer,)),
        forall|m: Option<String>|
            readable && call_ensures(old(reader).function(), (Label::Manufacturer,), m) && shown(m)
                == manufacturer@ ==> call_requires(old(reader).function(), (Label::Product,)),
    ensures
        final(reader).function() == old(reader).function(),
        identified(readable, manufacturer@, product@, old(reader).function(), r),
        extends(old(reader).calls(), final(reader).calls()),
        reads(readable, manufacturer@, added(old(reader).calls(), final(reader).calls())),
        ({
            let calls = added(old(reader).calls(), final(reader).calls());
            r <==> calls.len() == 2 && shown(calls[0].1) == manufacturer@ && shown(calls[1].1)
                == product@
        }),
{
    let ghost before = reader.calls();
    proof {
        lemma_added_nothing(before);
    }
    if !readable {
        return false;
    }
    let m = reader.call(Label::Manufacturer);
    let ghost first = m;
    proof {
        lemma_added_push(before, before, (Label::Manufacturer, first));
    }
    if !label_matches(manufacturer, m) {
        return false;
    }
    let ghost log = reader.calls();
    let p = reader.call(Label::Product);
    let ghost second = p;
    proof {
        lemma_added_push(before, log, (Label::Product, second));
    }
    let r = label_matches(product, p);
    assert(call_ensures(reader.function(), (Label::Product,), second) && r == (shown(second)
        == product@));
    r
}

} // verus!
