//! The parameter binder: turns the request's untyped positional
//! parameter list into the argument list a handler of a given arity
//! receives, or fails with an invalid-params error before the handler
//! is entered.

use vstd::prelude::*;

use crate::error_code::ErrorCode;
use crate::error_object::ErrorObject;
use crate::json::JsonValue;
use crate::parse::lemma_rep_of_list_index;
use crate::parse::lemma_rep_of_list_len;
use crate::parse::rep_of_list;
use crate::parse::JsonRep;

verus! {

/// Whether the parameter list has an acceptable shape for a handler
/// of arity `arity`: with no declared parameters the list must be
/// absent or empty; with declared parameters it must be present.
pub open spec fn sp_bind_ok(arity: nat, params: Option<Seq<JsonValue>>) -> bool {
    if arity == 0 {
        params matches Some(ps) ==> ps.len() == 0
    } else {
        params is Some
    }
}

/// The argument list a handler of arity `arity` receives from the
/// present parameter list `ps`: one element per declared parameter,
/// positions beyond the list filled with `null`, extra trailing
/// elements ignored.
pub open spec fn sp_bound_args(arity: nat, ps: Seq<JsonValue>) -> Seq<JsonValue> {
    Seq::new(arity, |k: int| if k < ps.len() { ps[k] } else { JsonValue::Null })
}

/// Binds `params` for a handler of arity `arity`.
///
/// With arity zero, a non-empty parameter array is refused with the
/// message `No params were expected`; with positive arity an absent
/// parameter list is refused with the canonical invalid-params
/// message.  On success the handler's argument list comes back:
/// positional elements first, missing trailing positions as `null`,
/// extra elements dropped.
pub fn bind_params(arity: usize, params: Option<Vec<JsonValue>>) -> (r: Result<
    Vec<JsonValue>,
    ErrorObject,
>)
    ensures
        match r {
            Result::Ok(args) => sp_bind_ok(
                arity as nat,
                match params {
                    Option::Some(ps) => Option::Some(ps@),
                    Option::None => Option::None,
                },
            ) && args@ == (match params {
                Option::Some(ps) => sp_bound_args(arity as nat, ps@),
                Option::None => sp_bound_args(arity as nat, Seq::empty()),
            }),
            Result::Err(e) => !sp_bind_ok(
                arity as nat,
                match params {
                    Option::Some(ps) => Option::Some(ps@),
                    Option::None => Option::None,
                },
            ) && e.code == ErrorCode::InvalidParams && e.message@ == (if arity == 0 {
                "No params were expected"@
            } else {
                "Invalid params"@
            }),
        },
{
    if arity == 0 {
        match params {
            Option::None => Ok(Vec::new()),
            Option::Some(ps) => {
                if ps.len() == 0 {
                    Ok(Vec::new())
                } else {
                    Err(
                        ErrorObject::new(
                            ErrorCode::InvalidParams,
                            "No params were expected".to_owned(),
                        ),
                    )
                }
            },
        }
    } else {
        match params {
            Option::None => Err(ErrorObject::from_code(ErrorCode::InvalidParams)),
            Option::Some(mut ps) => {
                let ghost orig = ps@;
                proof {
                    assert(ps@ =~= orig.subrange(0, orig.len() as int));
                }
                let mut args: Vec<JsonValue> = Vec::new();
                let mut i: usize = 0;
                while i < arity
                    invariant
                        i <= arity,
                        args@.len() == i as int,
                        ps@ == if i as int <= orig.len() {
                            orig.subrange(i as int, orig.len() as int)
                        } else {
                            Seq::<JsonValue>::empty()
                        },
                        forall|k: int|
                            0 <= k < i as int ==> args@[k] == (if k < orig.len() {
                                orig[k]
                            } else {
                                JsonValue::Null
                            }),
                    decreases arity - i,
                {
                    if ps.len() > 0 {
                        let v = ps.remove(0);
                        proof {
                            assert(ps@ =~= orig.subrange(i as int + 1, orig.len() as int));
                        }
                        args.push(v);
                    } else {
                        args.push(JsonValue::Null);
                    }
                    i = i + 1;
                }
                proof {
                    assert(args@ =~= sp_bound_args(arity as nat, orig));
                }
                Ok(args)
            },
        }
    }
}

/// The shape rule of `sp_bind_ok`, over parsed-request shapes.
pub open spec fn sp_bind_ok_rep(arity: nat, params: Option<Seq<JsonRep>>) -> bool {
    if arity == 0 {
        params matches Some(ps) ==> ps.len() == 0
    } else {
        params is Some
    }
}

/// The bound argument list of `sp_bound_args`, over parsed-request
/// shapes.
pub open spec fn sp_bound_args_rep(arity: nat, ps: Seq<JsonRep>) -> Seq<JsonRep> {
    Seq::new(arity, |k: int| if k < ps.len() { ps[k] } else { JsonRep::Null })
}

/// Binding and then taking shapes is taking shapes and then binding.
pub proof fn lemma_bound_args_rep(arity: nat, ps: Seq<JsonValue>)
    ensures
        rep_of_list(sp_bound_args(arity, ps), arity as int) == sp_bound_args_rep(
            arity,
            rep_of_list(ps, ps.len() as int),
        ),
{
    let a = sp_bound_args(arity, ps);
    let pr = rep_of_list(ps, ps.len() as int);
    lemma_rep_of_list_len(ps, ps.len() as int);
    lemma_rep_of_list_len(a, arity as int);
    assert forall|k: int| 0 <= k < arity as int implies rep_of_list(a, arity as int)[k]
        == sp_bound_args_rep(arity, pr)[k] by {
        lemma_rep_of_list_index(a, arity as int, k);
        if k < ps.len() {
            lemma_rep_of_list_index(ps, ps.len() as int, k);
        }
    }
    assert(rep_of_list(a, arity as int) =~= sp_bound_args_rep(arity, pr));
}

} // verus!
