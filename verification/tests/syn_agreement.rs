//! The argument grammar, held against the same grammar written with the
//! attribute parser of `syn`. The two must agree on every list in which each
//! value is a single token.

use availability::args::parse_args;
use availability::range::Availability;
use syn::parse::{ParseStream, Parser};
use syn::{Ident, LitInt};

fn with_syn(text: &str) -> Option<Availability> {
    let mut range = Availability { added: None, removed: None };
    let parser = syn::meta::parser(|meta| {
        let level = |tokens: ParseStream| -> syn::Result<u32> {
            if let Ok(literal) = tokens.parse::<LitInt>() {
                literal.base10_parse::<u32>()
            } else if let Ok(ident) = tokens.parse::<Ident>() {
                if ident == "HEAD" {
                    Ok(0xFFFF_FFFF)
                } else if ident == "NEXT" {
                    Ok(0xFFFF_FFFE)
                } else {
                    Err(meta.error("Invalid API level"))
                }
            } else {
                Err(meta.error("Invalid API level"))
            }
        };
        if meta.path.is_ident("added") {
            range.added = Some(level(meta.value()?)?);
            Ok(())
        } else if meta.path.is_ident("removed") {
            range.removed = Some(level(meta.value()?)?);
            Ok(())
        } else {
            Err(meta.error("unsupported available property"))
        }
    });
    match parser.parse_str(text) {
        Ok(()) => Some(range),
        Err(_) => None,
    }
}

fn agree(text: &str) {
    assert_eq!(parse_args(text).ok(), with_syn(text), "on `{}`", text);
}

#[test]
fn agreement_on_accepted_lists() {
    for text in [
        "",
        " ",
        "added = 16",
        "removed = 16",
        "added = 16, removed = 18",
        "removed = 18, added = 16",
        "added=16,removed=18,",
        "added = HEAD",
        "removed = NEXT",
        "added = NEXT, removed = HEAD",
        "added = 0",
        "added = 4294967295",
        "added = 0xFFFF_FFFF",
        "added = 0x10",
        "added = 0o17",
        "added = 0b101",
        "added = 1_000",
        "added = 16u8",
        "added = 16usize",
        "added = 16level",
        "added = 0000016",
        "added = 1, added = 2, added = 3",
        "added = 1, removed = 2, added = 3, removed = 4",
        "/* a */ added /* b */ = /* c */ 16 /* d */",
    ] {
        agree(text);
        assert!(with_syn(text).is_some(), "on `{}`", text);
    }
}

#[test]
fn agreement_on_refused_lists() {
    for text in [
        "foo = 1",
        "foo",
        "added",
        "added =",
        "added 16",
        "added = 16 removed = 18",
        "added = 16;",
        "added = 16,,",
        ", added = 16",
        "= 16",
        "16",
        "16 = added",
        "added = head",
        "added = next",
        "added = HEAD2",
        "added = r#HEAD",
        "r#added = 1",
        "added = -1",
        "added = - 1",
        "added = -x",
        "added = +1",
        "added = 1.5",
        "added = 1e3",
        "added = 1.",
        "added = \"16\"",
        "added = '1'",
        "added = b'1'",
        "added = true",
        "added = false",
        "added = (16)",
        "added = [16]",
        "added = {16}",
        "added(16)",
        "added == 16",
        "added => 16",
        "added := 16",
        "added: 16",
        "added = 4294967296",
        "added = 0x1_0000_0000",
        "added = 99999999999999999999999999999",
        "added::x = 1",
        "::added = 1",
        "added:: = 1",
        "added: :x = 1",
        "a::b::c",
        "::",
        "fn = 1",
        "_ = 1",
        "self = 1",
        "added = self",
        "added = _",
        "added = HEAD::x",
        "added = HEAD NEXT",
        "added = 16 17",
        "added = 1, foo = 2",
        "foo = 1, added = 2",
        "added = $x",
        "#[added = 1]",
        "/// added = 1",
        "'a = 1",
        "added = 'a",
        "ädded = 1",
    ] {
        agree(text);
        assert!(with_syn(text).is_none(), "on `{}`", text);
    }
}

#[test]
fn agreement_on_every_pair_of_keys_and_values() {
    let keys = ["added", "removed", "foo", "::added", "added::x"];
    let values = ["0", "20", "HEAD", "NEXT", "head", "0x14", "4294967296", "x"];
    let separators = ["", ",", ", ", " ", ";"];
    for first_key in keys {
        for first_value in values {
            agree(&format!("{first_key} = {first_value}"));
            for separator in separators {
                for second_key in keys {
                    for second_value in values {
                        agree(&format!(
                            "{first_key} = {first_value}{separator}{second_key} = {second_value}"
                        ));
                    }
                }
            }
        }
    }
}
