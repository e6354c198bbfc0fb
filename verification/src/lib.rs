use vstd::prelude::*;

pub mod error;
pub mod repr;
pub mod spec2;
pub mod spec3;

use crate::error::ErrV;
use crate::error::TranslateError;
use crate::error::vw_string_res;
use crate::repr::JavaScriptType;
use crate::repr::TypeV;
use crate::repr::exclude_named;
use crate::repr::filter_empty_types;
use crate::repr::contains_name;
use crate::repr::filter_unwanted_types;
use crate::repr::group_vw_lemmas;
use crate::repr::prune_empty;
use crate::repr::render_type;
use crate::repr::vw_pair_seq;
use crate::repr::vw_type;
use crate::spec2::Spec2;
use crate::spec2::spec_use_spec2;
use crate::spec2::use_spec2;
use crate::spec3::Spec3;
use crate::spec3::spec_use_spec3;
use crate::spec3::use_spec3;

verus! {

/// A schema document of either dialect: Swagger 2.0 or OpenAPI 3.0. Which
/// variant a byte stream holds is decided by shape during deserialization,
/// outside this crate.
#[derive(Debug)]
pub enum OpenApi {
    V2(Spec2),
    V3(Spec3),
}

/// The one comment line that opens every rendered output.
pub open spec fn spec_banner() -> Seq<char> {
    "// This file was generated using https://crates.io/crates/lupinas-lullaby\n"@
}

/// The requested filters on one declared type: empty-type pruning first
/// (when asked for), then exclusion of the listed names. `None` means the
/// declaration is dropped from the output.
pub open spec fn spec_apply_filters(t: TypeV, skip_empty: bool, skip: Seq<Seq<char>>) -> Option<
    TypeV,
> {
    match (if skip_empty {
        prune_empty(t)
    } else {
        Some(t)
    }) {
        Some(u) => exclude_named(u, skip),
        None => None,
    }
}

/// One output declaration.
pub open spec fn spec_entry_line(name: Seq<char>, t: TypeV) -> Seq<char> {
    "export type "@ + name + " = "@ + render_type(t) + ";"@
}

/// One declared type after the filters: dropped outright when its own name
/// is excluded, else filtered structurally.
pub open spec fn spec_keep_entry(
    name: Seq<char>,
    t: TypeV,
    skip_empty: bool,
    skip: Seq<Seq<char>>,
) -> Option<TypeV> {
    if skip.contains(name) {
        None
    } else {
        spec_apply_filters(t, skip_empty, skip)
    }
}

/// The declarations that survive the filters, each rendered as one line, in
/// order.
pub open spec fn spec_lines(
    pairs: Seq<(Seq<char>, TypeV)>,
    skip_empty: bool,
    skip: Seq<Seq<char>>,
) -> Seq<Seq<char>>
    decreases pairs,
{
    if pairs.len() == 0 {
        Seq::empty()
    } else {
        spec_lines(pairs.drop_last(), skip_empty, skip) + (match spec_keep_entry(
            pairs.last().0,
            pairs.last().1,
            skip_empty,
            skip,
        ) {
            Some(u) => seq![spec_entry_line(pairs.last().0, u)],
            None => Seq::empty(),
        })
    }
}

/// Lines joined by a newline, with no trailing newline.
pub open spec fn spec_join_lines(lines: Seq<Seq<char>>) -> Seq<char>
    decreases lines,
{
    if lines.len() == 0 {
        Seq::empty()
    } else if lines.len() == 1 {
        lines[0]
    } else {
        spec_join_lines(lines.drop_last()) + "\n"@ + lines.last()
    }
}

/// The whole rendered output: the banner line, then the surviving
/// declarations.
pub open spec fn spec_output(
    pairs: Seq<(Seq<char>, TypeV)>,
    skip_empty: bool,
    skip: Seq<Seq<char>>,
) -> Seq<char> {
    spec_banner() + spec_join_lines(spec_lines(pairs, skip_empty, skip))
}

/// Rendering a whole document: the matching translator's declarations,
/// filtered and rendered, or that translator's error.
pub open spec fn spec_use_spec(d: OpenApi, skip_empty: bool, skip: Seq<Seq<char>>) -> Result<
    Seq<char>,
    ErrV,
> {
    match d {
        OpenApi::V2(s) => match spec_use_spec2(s) {
            Ok(pairs) => Ok(spec_output(pairs, skip_empty, skip)),
            Err(e) => Err(e),
        },
        OpenApi::V3(s) => match spec_use_spec3(s) {
            Ok(pairs) => Ok(spec_output(pairs, skip_empty, skip)),
            Err(e) => Err(e),
        },
    }
}

/// Renders the surviving declarations of a lowered document.
#[verifier::loop_isolation(false)]
#[verifier::rlimit(60)]
fn render_output(
    pairs: &Vec<(String, JavaScriptType)>,
    skip_empty: bool,
    skip_types: &Vec<String>,
) -> (r: String)
    ensures
        r@ == spec_output(vw_pair_seq(pairs@), skip_empty, skip_types.deep_view()),
{
    broadcast use group_vw_lemmas;

    let ghost pv = vw_pair_seq(pairs@);
    let ghost skip = skip_types.deep_view();
    let mut text = String::from_str(
        "// This file was generated using https://crates.io/crates/lupinas-lullaby\n",
    );
    let mut wrote = false;
    proof {
        assert(pv.subrange(0, 0) =~= Seq::<(Seq<char>, TypeV)>::empty());
        assert(text@ =~= spec_banner() + spec_join_lines(
            spec_lines(pv.subrange(0, 0), skip_empty, skip),
        ));
    }
    for i in 0..pairs.len()
        invariant
            text@ == spec_banner() + spec_join_lines(
                spec_lines(pv.subrange(0, i as int), skip_empty, skip),
            ),
            wrote == (spec_lines(pv.subrange(0, i as int), skip_empty, skip).len() > 0),
    {
        let ghost pre = spec_lines(pv.subrange(0, i as int), skip_empty, skip);
        let filtered: Option<JavaScriptType> = if contains_name(skip_types, &pairs[i].0) {
            None
        } else if skip_empty {
            match filter_empty_types(&pairs[i].1) {
                Some(u) => filter_unwanted_types(&u, skip_types),
                None => None,
            }
        } else {
            filter_unwanted_types(&pairs[i].1, skip_types)
        };
        match filtered {
            Some(u) => {
                if wrote {
                    text.append("\n");
                }
                text.append("export type ");
                text.append(pairs[i].0.as_str());
                text.append(" = ");
                let t = u.to_text();
                text.append(t.as_str());
                text.append(";");
                wrote = true;
                proof {
                    let line = spec_entry_line(pv[i as int].0, vw_type(u));
                    assert(pre + seq![line] =~= pre.push(line));
                    assert(pre.push(line).drop_last() =~= pre);
                    if pre.len() == 0 {
                        assert(spec_join_lines(pre.push(line)) == line);
                        assert(text@ =~= spec_banner() + line);
                    } else {
                        assert(spec_join_lines(pre.push(line)) == spec_join_lines(pre) + "\n"@
                            + line);
                        assert(text@ =~= spec_banner() + (spec_join_lines(pre) + "\n"@ + line));
                    }
                }
            },
            None => {
                proof {
                    assert(pre + Seq::<Seq<char>>::empty() =~= pre);
                }
            },
        }
        proof {
            assert(pv.subrange(0, i as int + 1).drop_last() =~= pv.subrange(0, i as int));
        }
    }
    proof {
        assert(pv.subrange(0, pv.len() as int) =~= pv);
    }
    text
}

/// Renders a schema document of either dialect as newline-joined type
/// declarations behind the banner line, pruning empty types when
/// `skip_empty` is set and dropping the type names listed in `skip_types`;
/// or reports the first translation error.
pub fn use_spec(spec: &OpenApi, skip_empty: bool, skip_types: &Vec<String>) -> (r: Result<
    String,
    TranslateError,
>)
    ensures
        vw_string_res(r) == spec_use_spec(*spec, skip_empty, skip_types.deep_view()),
{
    let pairs = match spec {
        OpenApi::V2(s) => use_spec2(s),
        OpenApi::V3(s) => use_spec3(s),
    };
    match pairs {
        Ok(pairs) => Ok(render_output(&pairs, skip_empty, skip_types)),
        Err(e) => Err(e),
    }
}

} // verus!
