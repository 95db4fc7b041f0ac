//! `jjit config`: setting, reading and listing configuration values.

use crate::config::{default_map, overlay, Config};
use crate::strmap::{lookup, pair_views};
use crate::text::str_eq;
use vstd::prelude::*;
use vstd::string::StringSliceAdditionalSpecFns;
use vstd::utf8::{encode_utf8, is_char_boundary};

verus! {

broadcast use vstd::string::group_string_axioms;

/// The file contents after `config set`: the defaults, the settings already
/// in that file, and the new value.
pub fn config_for_set(existing: Option<&Config>, key: &str, value: &str) -> (c: Config)
    ensures
        c@ == overlay(
            default_map(),
            match existing {
                Some(e) => Some(e@),
                None => None,
            },
        ).insert(key@, value@),
{
    let mut config = Config::default();
    if let Some(e) = existing {
        config.overlay(e);
    }
    config.set(key, value);
    config
}

/// One line of `config list`.
pub enum ListLine {
    /// A setting shown in full: `key = value`.
    Plain { key: String, value: String },
    /// The API key, of which only the first eight bytes are shown.
    Masked { key: String, shown: String },
}

/// Whether an API key value is shown masked: it is longer than eight bytes.
pub open spec fn masked_spec(key: Seq<char>, value: Seq<char>) -> bool {
    key == "api_key"@ && encode_utf8(value).len() > 8
}

/// Whether masking `value` can cut it after its eighth byte.
pub open spec fn maskable(key: Seq<char>, value: Seq<char>) -> bool {
    masked_spec(key, value) ==> is_char_boundary(encode_utf8(value), 8)
}

/// How `config list` shows one setting: the API key, when longer than
/// eight bytes, by its first eight bytes only; everything else in full.
pub fn list_line(key: &str, value: &str) -> (l: ListLine)
    requires
        encode_utf8(value@).len() <= usize::MAX,
        maskable(key@, value@),
    ensures
        masked_spec(key@, value@) ==> (l matches ListLine::Masked { key: k, shown } && k@ == key@
            && encode_utf8(shown@) == encode_utf8(value@).take(8)),
        !masked_spec(key@, value@) ==> (l matches ListLine::Plain { key: k, value: v } && k@
            == key@ && v@ == value@),
{
    if str_eq(key, "api_key") && value.len() > 8 {
        let (head, _) = value.split_at(8);
        assert(head.spec_bytes() == encode_utf8(head@));
        assert(value.spec_bytes() == encode_utf8(value@));
        assert(encode_utf8(head@) =~= encode_utf8(value@).take(8));
        ListLine::Masked { key: key.to_owned(), shown: head.to_owned() }
    } else {
        ListLine::Plain { key: key.to_owned(), value: value.to_owned() }
    }
}

} // verus!
