//! Objective-name canonicalization and the objective → postprocessor map of
//! the LightGBM loader. Canonicalization runs first, so the map only ever sees
//! canonical names (e.g. `l2_root` collapses to `regression`).

use vstd::prelude::*;
use crate::lightgbm::error::LgbError;
use crate::text::{
    chars_of, contains_str, index_of, index_of_range, is_float_literal, is_float_literal_range,
    opt_view, range_eq, reads_non_positive, reads_non_positive_range, str_eq, string_from_range, views,
};

verus! {

/// Whether `name` is one of the spellings in `options`.
pub open spec fn one_of(name: Seq<char>, options: Seq<&str>) -> bool {
    exists|i: int| 0 <= i < options.len() && #[trigger] options[i]@ == name
}

/// The canonical spelling of a LightGBM objective name, or `None` for a name
/// that LightGBM does not define.
pub open spec fn canonical_objective_spec(name: Seq<char>) -> Option<Seq<char>> {
    if one_of(
        name,
        seq![
            "regression",
            "regression_l2",
            "l2",
            "mean_squared_error",
            "mse",
            "l2_root",
            "root_mean_squared_error",
            "rmse",
        ],
    ) {
        Some("regression"@)
    } else if one_of(name, seq!["regression_l1", "l1", "mean_absolute_error", "mae"]) {
        Some("regression_l1"@)
    } else if one_of(name, seq!["mape", "mean_absolute_percentage_error"]) {
        Some("mape"@)
    } else if one_of(name, seq!["multiclass", "softmax"]) {
        Some("multiclass"@)
    } else if one_of(name, seq!["multiclassova", "multiclass_ova", "ova", "ovr"]) {
        Some("multiclassova"@)
    } else if one_of(name, seq!["cross_entropy", "xentropy"]) {
        Some("cross_entropy"@)
    } else if one_of(name, seq!["cross_entropy_lambda", "xentlambda"]) {
        Some("cross_entropy_lambda"@)
    } else if one_of(
        name,
        seq!["rank_xendcg", "xendcg", "xe_ndcg", "xe_ndcg_mart", "xendcg_mart"],
    ) {
        Some("rank_xendcg"@)
    } else if one_of(
        name,
        seq!["huber", "fair", "poisson", "quantile", "gamma", "tweedie", "binary", "lambdarank", "custom"],
    ) {
        Some(name)
    } else {
        None
    }
}

/// Whether `name` equals one of `options`.
fn matches_any(name: &str, options: &[&str]) -> (b: bool)
    ensures
        b == one_of(name@, options@),
{
    let mut i: usize = 0;
    while i < options.len()
        invariant
            i <= options@.len(),
            forall|j: int| 0 <= j < i ==> options@[j]@ != name@,
        decreases options@.len() - i,
    {
        if str_eq(options[i], name) {
            return true;
        }
        i = i + 1;
    }
    false
}

/// Canonicalize a LightGBM objective name: each alias group collapses to its
/// canonical spelling; an unknown name is
/// [`LgbError::UnrecognizedObjective`].
pub fn canonical_objective(obj_name: &str) -> (r: Result<&'static str, LgbError>)
    ensures
        r matches Ok(c) ==> canonical_objective_spec(obj_name@) == Some(c@),
        r matches Err(e) ==> (canonical_objective_spec(obj_name@) is None && (e matches LgbError::UnrecognizedObjective(s) && s@ == obj_name@)),
{
    let regression = [
        "regression",
        "regression_l2",
        "l2",
        "mean_squared_error",
        "mse",
        "l2_root",
        "root_mean_squared_error",
        "rmse",
    ];
    let l1 = ["regression_l1", "l1", "mean_absolute_error", "mae"];
    let mape = ["mape", "mean_absolute_percentage_error"];
    let multiclass = ["multiclass", "softmax"];
    let ova = ["multiclassova", "multiclass_ova", "ova", "ovr"];
    let xentropy = ["cross_entropy", "xentropy"];
    let xentlambda = ["cross_entropy_lambda", "xentlambda"];
    let xendcg = ["rank_xendcg", "xendcg", "xe_ndcg", "xe_ndcg_mart", "xendcg_mart"];
    let plain = [
        "huber",
        "fair",
        "poisson",
        "quantile",
        "gamma",
        "tweedie",
        "binary",
        "lambdarank",
        "custom",
    ];
    assert(regression@ =~= seq![
        "regression",
        "regression_l2",
        "l2",
        "mean_squared_error",
        "mse",
        "l2_root",
        "root_mean_squared_error",
        "rmse",
    ]);
    assert(l1@ =~= seq!["regression_l1", "l1", "mean_absolute_error", "mae"]);
    assert(mape@ =~= seq!["mape", "mean_absolute_percentage_error"]);
    assert(multiclass@ =~= seq!["multiclass", "softmax"]);
    assert(ova@ =~= seq!["multiclassova", "multiclass_ova", "ova", "ovr"]);
    assert(xentropy@ =~= seq!["cross_entropy", "xentropy"]);
    assert(xentlambda@ =~= seq!["cross_entropy_lambda", "xentlambda"]);
    assert(xendcg@ =~= seq!["rank_xendcg", "xendcg", "xe_ndcg", "xe_ndcg_mart", "xendcg_mart"]);
    assert(plain@ =~= seq![
        "huber",
        "fair",
        "poisson",
        "quantile",
        "gamma",
        "tweedie",
        "binary",
        "lambdarank",
        "custom",
    ]);
    if matches_any(obj_name, &regression) {
        Ok("regression")
    } else if matches_any(obj_name, &l1) {
        Ok("regression_l1")
    } else if matches_any(obj_name, &mape) {
        Ok("mape")
    } else if matches_any(obj_name, &multiclass) {
        Ok("multiclass")
    } else if matches_any(obj_name, &ova) {
        Ok("multiclassova")
    } else if matches_any(obj_name, &xentropy) {
        Ok("cross_entropy")
    } else if matches_any(obj_name, &xentlambda) {
        Ok("cross_entropy_lambda")
    } else if matches_any(obj_name, &xendcg) {
        Ok("rank_xendcg")
    } else {
        assert(canonical_objective_spec(obj_name@) == (if one_of(obj_name@, plain@) {
            Some(obj_name@)
        } else {
            None::<Seq<char>>
        }));
        let mut i: usize = 0;
        while i < plain.len()
            invariant
                i <= plain@.len(),
                canonical_objective_spec(obj_name@) == (if one_of(obj_name@, plain@) {
                    Some(obj_name@)
                } else {
                    None::<Seq<char>>
                }),
                plain@ == seq![
                    "huber",
                    "fair",
                    "poisson",
                    "quantile",
                    "gamma",
                    "tweedie",
                    "binary",
                    "lambdarank",
                    "custom",
                ],
                forall|j: int| 0 <= j < i ==> plain@[j]@ != obj_name@,
            decreases plain@.len() - i,
        {
            if str_eq(plain[i], obj_name) {
                assert(one_of(obj_name@, plain@));
                return Ok(plain[i]);
            }
            i = i + 1;
        }
        let name = chars_of(obj_name);
        let owned = string_from_range(name.as_slice(), 0, name.len());
        assert(name@.subrange(0, name@.len() as int) =~= name@);
        Err(LgbError::UnrecognizedObjective(owned))
    }
}

/// How the `sigmoid_alpha` of a model is obtained from its objective.
#[derive(Debug, Clone, PartialEq, Eq)]
pub enum SigmoidAlpha {
    /// The objective has no sigmoid parameter: `sigmoid_alpha` is 1.
    One,
    /// The objective requires `sigmoid:<a>` with `a > 0`. Holds the text of the
    /// first `sigmoid:` parameter whose value is a floating-point literal; it
    /// does not read as non-positive (see
    /// [`crate::text::reads_non_positive`]), which leaves out every value but
    /// those between `10^-324` and `10^-323`, where the caller's
    /// floating-point test decides.
    FromParam(String),
}

/// The postprocessor resolved for a LightGBM objective, plus the source of the
/// `sigmoid_alpha` used by the `sigmoid` / `multiclass_ova` postprocessors.
#[derive(Debug, Clone, PartialEq, Eq)]
pub struct ObjectivePostproc {
    /// The postprocessor name (e.g. `"softmax"`, `"sigmoid"`).
    pub postprocessor: &'static str,
    /// Where `sigmoid_alpha` comes from.
    pub sigmoid_alpha: SigmoidAlpha,
}

/// The value text of the first token of the form `sigmoid:<a>` whose `<a>` is
/// a floating-point literal.
pub open spec fn sigmoid_param(tokens: Seq<Seq<char>>) -> Option<Seq<char>>
    decreases tokens.len(),
{
    if tokens.len() == 0 {
        None
    } else {
        let t = tokens[0];
        let c = index_of(t, ':');
        if c < t.len() && t.subrange(0, c) == seq!['s', 'i', 'g', 'm', 'o', 'i', 'd']
            && is_float_literal(t.subrange(c + 1, t.len() as int)) {
            Some(t.subrange(c + 1, t.len() as int))
        } else {
            sigmoid_param(tokens.drop_first())
        }
    }
}

/// The postprocessor name for a canonical objective, paired with whether its
/// `sigmoid_alpha` comes from a `sigmoid:<a>` parameter; `None` when the
/// objective is not recognized. In the regression family a `sqrt` parameter
/// selects `signed_square`.
pub open spec fn postprocessor_for(canonical: Seq<char>, params: Seq<Seq<char>>) -> Option<
    (Seq<char>, bool),
> {
    if canonical == "multiclass"@ {
        Some(("softmax"@, false))
    } else if canonical == "multiclassova"@ {
        Some(("multiclass_ova"@, true))
    } else if canonical == "binary"@ {
        Some(("sigmoid"@, true))
    } else if canonical == "cross_entropy"@ {
        Some(("sigmoid"@, false))
    } else if canonical == "cross_entropy_lambda"@ {
        Some(("logarithm_one_plus_exp"@, false))
    } else if one_of(canonical, seq!["poisson", "gamma", "tweedie"]) {
        Some(("exponential"@, false))
    } else if one_of(
        canonical,
        seq!["regression", "regression_l1", "huber", "fair", "quantile", "mape"],
    ) {
        if params.contains("sqrt"@) {
            Some(("signed_square"@, false))
        } else {
            Some(("identity"@, false))
        }
    } else if one_of(canonical, seq!["lambdarank", "rank_xendcg", "custom"]) {
        Some(("identity"@, false))
    } else {
        None
    }
}

/// Find the `sigmoid:<a>` parameter: the text `<a>` of the first token whose
/// part before its first `:` is `sigmoid` and whose remainder is a
/// floating-point literal.
fn parse_sigmoid_alpha(obj_param: &[String]) -> (r: Option<String>)
    ensures
        opt_view(r) == sigmoid_param(views(obj_param@)),
{
    let sigmoid = ['s', 'i', 'g', 'm', 'o', 'i', 'd'];
    assert(sigmoid@ =~= seq!['s', 'i', 'g', 'm', 'o', 'i', 'd']);
    let mut i: usize = 0;
    assert(views(obj_param@).skip(0) =~= views(obj_param@));
    while i < obj_param.len()
        invariant
            i <= obj_param@.len(),
            sigmoid@ == seq!['s', 'i', 'g', 'm', 'o', 'i', 'd'],
            sigmoid_param(views(obj_param@)) == sigmoid_param(views(obj_param@).skip(i as int)),
        decreases obj_param@.len() - i,
    {
        assert(views(obj_param@).skip(i as int).len() > 0);
        let ghost rest = views(obj_param@).skip(i as int);
        let token = chars_of(obj_param[i].as_str());
        let n = token.len();
        assert(rest[0] == token@);
        assert(token@.subrange(0, n as int) =~= token@);
        let c = index_of_range(token.as_slice(), 0, n, ':');
        if c < n && range_eq(token.as_slice(), 0, c, &sigmoid) && is_float_literal_range(
            token.as_slice(),
            c + 1,
            n,
        ) {
            return Some(string_from_range(token.as_slice(), c + 1, n));
        }
        assert(rest.drop_first() =~= views(obj_param@).skip(i + 1));
        i = i + 1;
    }
    None
}

/// The text of the `sigmoid:<a>` parameter of `objective`, or the error for
/// an alpha that is missing or reads as non-positive.
fn positive_sigmoid_alpha(objective: &str, obj_param: &[String]) -> (r: Result<String, LgbError>)
    ensures
        match sigmoid_param(views(obj_param@)) {
            Some(a) => if reads_non_positive(a) {
                r matches Err(LgbError::InvalidSigmoidAlpha { objective: o, alpha: Some(t) }) && o@ == objective@ && t@
                    == a
            } else {
                r matches Ok(t) && t@ == a
            },
            None => r matches Err(LgbError::InvalidSigmoidAlpha { objective: o, alpha: None }) && o@ == objective@,
        },
{
    match parse_sigmoid_alpha(obj_param) {
        None => Err(LgbError::InvalidSigmoidAlpha { objective: owned_name(objective), alpha: None }),
        Some(alpha) => {
            let cs = chars_of(alpha.as_str());
            let n = cs.len();
            assert(cs@.subrange(0, n as int) =~= cs@);
            if reads_non_positive_range(cs.as_slice(), 0, n) {
                Err(LgbError::InvalidSigmoidAlpha { objective: owned_name(objective), alpha: Some(alpha) })
            } else {
                Ok(alpha)
            }
        },
    }
}

/// An owned copy of `s`.
fn owned_name(s: &str) -> (o: String)
    ensures
        o@ == s@,
{
    let name = chars_of(s);
    let owned = string_from_range(name.as_slice(), 0, name.len());
    assert(name@.subrange(0, name@.len() as int) =~= name@);
    owned
}

/// Whether the sigmoid alpha found among the parameters (see
/// [`sigmoid_param`]) is rejected: it is missing, or it reads as a value that
/// is not positive (see [`reads_non_positive`]).
pub open spec fn alpha_rejected(alpha: Option<Seq<char>>) -> bool {
    match alpha {
        None => true,
        Some(a) => reads_non_positive(a),
    }
}

/// Map a canonical objective name (output of [`canonical_objective`]) to its
/// postprocessor and the source of its `sigmoid_alpha`:
/// `multiclass` → `softmax`; `multiclassova` → `multiclass_ova` and `binary` →
/// `sigmoid` (alpha from `sigmoid:<a>`, which must be present and positive);
/// `cross_entropy` → `sigmoid`; `cross_entropy_lambda` →
/// `logarithm_one_plus_exp`; `poisson`/`gamma`/`tweedie` → `exponential`; the
/// regression family → `signed_square` when a parameter is `sqrt`, else
/// `identity`; `lambdarank`/`rank_xendcg`/`custom` → `identity`. Any other
/// name is [`LgbError::UnrecognizedObjective`]; `binary` or `multiclassova`
/// whose alpha is missing or reads as non-positive is
/// [`LgbError::InvalidSigmoidAlpha`].
pub fn map_objective(canonical: &str, obj_param: &[String]) -> (r: Result<ObjectivePostproc, LgbError>)
    ensures
        r is Ok <==> (postprocessor_for(canonical@, views(obj_param@)) matches Some(pp) && !(pp.1 && alpha_rejected(
            sigmoid_param(views(obj_param@)),
        ))),
        r matches Ok(p) ==> {
            let spec = postprocessor_for(canonical@, views(obj_param@)).unwrap();
            &&& spec.0 == p.postprocessor@
            &&& if spec.1 {
                p.sigmoid_alpha matches SigmoidAlpha::FromParam(a) && sigmoid_param(views(obj_param@)) == Some(a@)
            } else {
                p.sigmoid_alpha == SigmoidAlpha::One
            }
        },
        r matches Err(e) ==> if postprocessor_for(canonical@, views(obj_param@)) is None {
            e matches LgbError::UnrecognizedObjective(s) && s@ == canonical@
        } else {
            e matches LgbError::InvalidSigmoidAlpha { objective, alpha } && objective@ == canonical@ && opt_view(alpha)
                == sigmoid_param(views(obj_param@))
        },
{
    let count = ["poisson", "gamma", "tweedie"];
    let regression = ["regression", "regression_l1", "huber", "fair", "quantile", "mape"];
    let ranking = ["lambdarank", "rank_xendcg", "custom"];
    assert(count@ =~= seq!["poisson", "gamma", "tweedie"]);
    assert(regression@ =~= seq!["regression", "regression_l1", "huber", "fair", "quantile", "mape"]);
    assert(ranking@ =~= seq!["lambdarank", "rank_xendcg", "custom"]);
    if str_eq(canonical, "multiclass") {
        Ok(ObjectivePostproc { postprocessor: "softmax", sigmoid_alpha: SigmoidAlpha::One })
    } else if str_eq(canonical, "multiclassova") {
        let alpha = positive_sigmoid_alpha(canonical, obj_param)?;
        Ok(ObjectivePostproc { postprocessor: "multiclass_ova", sigmoid_alpha: SigmoidAlpha::FromParam(alpha) })
    } else if str_eq(canonical, "binary") {
        let alpha = positive_sigmoid_alpha(canonical, obj_param)?;
        Ok(ObjectivePostproc { postprocessor: "sigmoid", sigmoid_alpha: SigmoidAlpha::FromParam(alpha) })
    } else if str_eq(canonical, "cross_entropy") {
        Ok(ObjectivePostproc { postprocessor: "sigmoid", sigmoid_alpha: SigmoidAlpha::One })
    } else if str_eq(canonical, "cross_entropy_lambda") {
        Ok(
            ObjectivePostproc {
                postprocessor: "logarithm_one_plus_exp",
                sigmoid_alpha: SigmoidAlpha::One,
            },
        )
    } else if matches_any(canonical, &count) {
        Ok(ObjectivePostproc { postprocessor: "exponential", sigmoid_alpha: SigmoidAlpha::One })
    } else if matches_any(canonical, &regression) {
        let sqrt = contains_str(obj_param, "sqrt");
        Ok(
            ObjectivePostproc {
                postprocessor: if sqrt {
                    "signed_square"
                } else {
                    "identity"
                },
                sigmoid_alpha: SigmoidAlpha::One,
            },
        )
    } else if matches_any(canonical, &ranking) {
        Ok(ObjectivePostproc { postprocessor: "identity", sigmoid_alpha: SigmoidAlpha::One })
    } else {
        let name = chars_of(canonical);
        let owned = string_from_range(name.as_slice(), 0, name.len());
        assert(name@.subrange(0, name@.len() as int) =~= name@);
        Err(LgbError::UnrecognizedObjective(owned))
    }
}

/// [`one_of`] checked spelling by spelling, each compared by its length and
/// its first and last characters before the whole spelling.
spec fn listed(name: Seq<char>, opts: Seq<&str>) -> bool
    decreases opts.len(),
{
    opts.len() > 0 && ((opts[0]@.len() == name.len() && opts[0]@[0] == name[0] && opts[0]@.last() == name.last()
        && opts[0]@ == name) || listed(name, opts.drop_first()))
}

proof fn lemma_listed(name: Seq<char>, opts: Seq<&str>)
    ensures
        one_of(name, opts) == listed(name, opts),
    decreases opts.len(),
{
    if opts.len() > 0 {
        lemma_listed(name, opts.drop_first());
        if one_of(name, opts.drop_first()) {
            let i = choose|i: int| 0 <= i < opts.drop_first().len() && #[trigger] opts.drop_first()[i]@ == name;
            assert(opts[i + 1]@ == name);
        }
        if one_of(name, opts) && opts[0]@ != name {
            let i = choose|i: int| 0 <= i < opts.len() && #[trigger] opts[i]@ == name;
            assert(opts.drop_first()[i - 1]@ == name);
        }
    }
}

/// Canonicalization is idempotent, and every canonical name has a
/// postprocessor: for a name LightGBM defines, canonicalizing its canonical
/// spelling gives that spelling again, and the map accepts it whatever the
/// parameters.
pub proof fn lemma_canonical_idempotent(name: Seq<char>, params: Seq<Seq<char>>)
    requires
        canonical_objective_spec(name) is Some,
    ensures
        canonical_objective_spec(canonical_objective_spec(name).unwrap()) == canonical_objective_spec(name),
        postprocessor_for(canonical_objective_spec(name).unwrap(), params) is Some,
{
    reveal_strlit("regression");
    reveal_strlit("regression_l2");
    reveal_strlit("l2");
    reveal_strlit("mean_squared_error");
    reveal_strlit("mse");
    reveal_strlit("l2_root");
    reveal_strlit("root_mean_squared_error");
    reveal_strlit("rmse");
    reveal_strlit("regression_l1");
    reveal_strlit("l1");
    reveal_strlit("mean_absolute_error");
    reveal_strlit("mae");
    reveal_strlit("mape");
    reveal_strlit("mean_absolute_percentage_error");
    reveal_strlit("multiclass");
    reveal_strlit("softmax");
    reveal_strlit("multiclassova");
    reveal_strlit("multiclass_ova");
    reveal_strlit("ova");
    reveal_strlit("ovr");
    reveal_strlit("cross_entropy");
    reveal_strlit("xentropy");
    reveal_strlit("cross_entropy_lambda");
    reveal_strlit("xentlambda");
    reveal_strlit("rank_xendcg");
    reveal_strlit("xendcg");
    reveal_strlit("xe_ndcg");
    reveal_strlit("xe_ndcg_mart");
    reveal_strlit("xendcg_mart");
    reveal_strlit("huber");
    reveal_strlit("fair");
    reveal_strlit("poisson");
    reveal_strlit("quantile");
    reveal_strlit("gamma");
    reveal_strlit("tweedie");
    reveal_strlit("binary");
    reveal_strlit("lambdarank");
    reveal_strlit("custom");
    reveal_with_fuel(listed, 10);
    let c = canonical_objective_spec(name).unwrap();
    lemma_listed(name, seq!["regression", "regression_l2", "l2", "mean_squared_error", "mse", "l2_root", "root_mean_squared_error", "rmse"]);
    lemma_listed(name, seq!["regression_l1", "l1", "mean_absolute_error", "mae"]);
    lemma_listed(name, seq!["mape", "mean_absolute_percentage_error"]);
    lemma_listed(name, seq!["multiclass", "softmax"]);
    lemma_listed(name, seq!["multiclassova", "multiclass_ova", "ova", "ovr"]);
    lemma_listed(name, seq!["cross_entropy", "xentropy"]);
    lemma_listed(name, seq!["cross_entropy_lambda", "xentlambda"]);
    lemma_listed(name, seq!["rank_xendcg", "xendcg", "xe_ndcg", "xe_ndcg_mart", "xendcg_mart"]);
    lemma_listed(name, seq!["huber", "fair", "poisson", "quantile", "gamma", "tweedie", "binary", "lambdarank", "custom"]);
    lemma_listed(c, seq!["regression", "regression_l2", "l2", "mean_squared_error", "mse", "l2_root", "root_mean_squared_error", "rmse"]);
    lemma_listed(c, seq!["regression_l1", "l1", "mean_absolute_error", "mae"]);
    lemma_listed(c, seq!["mape", "mean_absolute_percentage_error"]);
    lemma_listed(c, seq!["multiclass", "softmax"]);
    lemma_listed(c, seq!["multiclassova", "multiclass_ova", "ova", "ovr"]);
    lemma_listed(c, seq!["cross_entropy", "xentropy"]);
    lemma_listed(c, seq!["cross_entropy_lambda", "xentlambda"]);
    lemma_listed(c, seq!["rank_xendcg", "xendcg", "xe_ndcg", "xe_ndcg_mart", "xendcg_mart"]);
    lemma_listed(c, seq!["huber", "fair", "poisson", "quantile", "gamma", "tweedie", "binary", "lambdarank", "custom"]);
    lemma_listed(c, seq!["poisson", "gamma", "tweedie"]);
    lemma_listed(c, seq!["regression", "regression_l1", "huber", "fair", "quantile", "mape"]);
    lemma_listed(c, seq!["lambdarank", "rank_xendcg", "custom"]);
}


/// The postprocessor table of the canonical objectives, whatever the
/// parameters: `multiclass` → `softmax`; `multiclassova` → `multiclass_ova`
/// and `binary` → `sigmoid`, both with the alpha of `sigmoid:<a>`;
/// `cross_entropy` → `sigmoid` (alpha 1); `cross_entropy_lambda` →
/// `logarithm_one_plus_exp`; `poisson`, `gamma`, `tweedie` → `exponential`;
/// the regression family → `signed_square` with a `sqrt` parameter and
/// `identity` without; `lambdarank`, `rank_xendcg`, `custom` → `identity`.
pub proof fn lemma_postprocessor_table(params: Seq<Seq<char>>)
    ensures
        postprocessor_for("multiclass"@, params) matches Some(e) && e.0 == "softmax"@ && !e.1,
        postprocessor_for("multiclassova"@, params) matches Some(e) && e.0 == "multiclass_ova"@ && e.1,
        postprocessor_for("binary"@, params) matches Some(e) && e.0 == "sigmoid"@ && e.1,
        postprocessor_for("cross_entropy"@, params) matches Some(e) && e.0 == "sigmoid"@ && !e.1,
        postprocessor_for("cross_entropy_lambda"@, params) matches Some(e) && e.0 == "logarithm_one_plus_exp"@ && !e.1,
        postprocessor_for("poisson"@, params) matches Some(e) && e.0 == "exponential"@ && !e.1,
        postprocessor_for("gamma"@, params) matches Some(e) && e.0 == "exponential"@ && !e.1,
        postprocessor_for("tweedie"@, params) matches Some(e) && e.0 == "exponential"@ && !e.1,
        forall|name: Seq<char>|
            #![trigger postprocessor_for(name, params)]
            name == "regression"@ || name == "regression_l1"@ || name == "huber"@ || name == "fair"@ || name
                == "quantile"@ || name == "mape"@ ==> (postprocessor_for(name, params) matches Some(e) && !e.1 && e.0
                == if params.contains("sqrt"@) {
                "signed_square"@
            } else {
                "identity"@
            }),
        postprocessor_for("lambdarank"@, params) matches Some(e) && e.0 == "identity"@ && !e.1,
        postprocessor_for("rank_xendcg"@, params) matches Some(e) && e.0 == "identity"@ && !e.1,
        postprocessor_for("custom"@, params) matches Some(e) && e.0 == "identity"@ && !e.1,
{
    reveal_strlit("multiclass");
    reveal_strlit("multiclassova");
    reveal_strlit("binary");
    reveal_strlit("cross_entropy");
    reveal_strlit("cross_entropy_lambda");
    reveal_strlit("poisson");
    reveal_strlit("gamma");
    reveal_strlit("tweedie");
    reveal_strlit("regression");
    reveal_strlit("regression_l1");
    reveal_strlit("huber");
    reveal_strlit("fair");
    reveal_strlit("quantile");
    reveal_strlit("mape");
    reveal_strlit("lambdarank");
    reveal_strlit("rank_xendcg");
    reveal_strlit("custom");
    reveal_strlit("sqrt");
    assert("multiclass"@.len() == 10 && "multiclass"@[0] == 'm' && "multiclass"@.last() == 's');
    assert("multiclassova"@.len() == 13 && "multiclassova"@[0] == 'm' && "multiclassova"@.last() == 'a');
    assert("binary"@.len() == 6 && "binary"@[0] == 'b' && "binary"@.last() == 'y');
    assert("cross_entropy"@.len() == 13 && "cross_entropy"@[0] == 'c' && "cross_entropy"@.last() == 'y');
    assert("cross_entropy_lambda"@.len() == 20 && "cross_entropy_lambda"@[0] == 'c' && "cross_entropy_lambda"@.last() == 'a');
    assert("poisson"@.len() == 7 && "poisson"@[0] == 'p' && "poisson"@.last() == 'n');
    assert("gamma"@.len() == 5 && "gamma"@[0] == 'g' && "gamma"@.last() == 'a');
    assert("tweedie"@.len() == 7 && "tweedie"@[0] == 't' && "tweedie"@.last() == 'e');
    assert("regression"@.len() == 10 && "regression"@[0] == 'r' && "regression"@.last() == 'n');
    assert("regression_l1"@.len() == 13 && "regression_l1"@[0] == 'r' && "regression_l1"@.last() == '1');
    assert("huber"@.len() == 5 && "huber"@[0] == 'h' && "huber"@.last() == 'r');
    assert("fair"@.len() == 4 && "fair"@[0] == 'f' && "fair"@.last() == 'r');
    assert("quantile"@.len() == 8 && "quantile"@[0] == 'q' && "quantile"@.last() == 'e');
    assert("mape"@.len() == 4 && "mape"@[0] == 'm' && "mape"@.last() == 'e');
    assert("lambdarank"@.len() == 10 && "lambdarank"@[0] == 'l' && "lambdarank"@.last() == 'k');
    assert("rank_xendcg"@.len() == 11 && "rank_xendcg"@[0] == 'r' && "rank_xendcg"@.last() == 'g');
    assert("custom"@.len() == 6 && "custom"@[0] == 'c' && "custom"@.last() == 'm');
    reveal_with_fuel(listed, 10);
    let count = seq!["poisson", "gamma", "tweedie"];
    let regression = seq!["regression", "regression_l1", "huber", "fair", "quantile", "mape"];
    let ranking = seq!["lambdarank", "rank_xendcg", "custom"];
    assert forall|name: Seq<char>|
        name == "regression"@ || name == "regression_l1"@ || name == "huber"@ || name == "fair"@ || name
            == "quantile"@ || name == "mape"@ || name == "poisson"@ || name == "gamma"@ || name == "tweedie"@
            || name == "lambdarank"@ || name == "rank_xendcg"@ || name == "custom"@ || name == "multiclass"@
            || name == "multiclassova"@ || name == "binary"@ || name == "cross_entropy"@
            || name == "cross_entropy_lambda"@ implies {
            &&& one_of(name, count) == listed(name, count)
            &&& one_of(name, regression) == listed(name, regression)
            &&& one_of(name, ranking) == listed(name, ranking)
        } by {
        lemma_listed(name, count);
        lemma_listed(name, regression);
        lemma_listed(name, ranking);
    }
}


/// Canonicalization with each alias group checked spelling by spelling.
proof fn lemma_canonical_by_listing(name: Seq<char>)
    ensures
        canonical_objective_spec(name) == {
    if listed(name, seq!["regression", "regression_l2", "l2", "mean_squared_error", "mse", "l2_root", "root_mean_squared_error", "rmse"]) {
        Some("regression"@)
    } else if listed(name, seq!["regression_l1", "l1", "mean_absolute_error", "mae"]) {
        Some("regression_l1"@)
    } else if listed(name, seq!["mape", "mean_absolute_percentage_error"]) {
        Some("mape"@)
    } else if listed(name, seq!["multiclass", "softmax"]) {
        Some("multiclass"@)
    } else if listed(name, seq!["multiclassova", "multiclass_ova", "ova", "ovr"]) {
        Some("multiclassova"@)
    } else if listed(name, seq!["cross_entropy", "xentropy"]) {
        Some("cross_entropy"@)
    } else if listed(name, seq!["cross_entropy_lambda", "xentlambda"]) {
        Some("cross_entropy_lambda"@)
    } else if listed(name, seq!["rank_xendcg", "xendcg", "xe_ndcg", "xe_ndcg_mart", "xendcg_mart"]) {
        Some("rank_xendcg"@)
    } else if listed(name, seq!["huber", "fair", "poisson", "quantile", "gamma", "tweedie", "binary", "lambdarank", "custom"]) {
        Some(name)
    } else {
        None
    }
        },
{
    lemma_listed(name, seq!["regression", "regression_l2", "l2", "mean_squared_error", "mse", "l2_root", "root_mean_squared_error", "rmse"]);
    lemma_listed(name, seq!["regression_l1", "l1", "mean_absolute_error", "mae"]);
    lemma_listed(name, seq!["mape", "mean_absolute_percentage_error"]);
    lemma_listed(name, seq!["multiclass", "softmax"]);
    lemma_listed(name, seq!["multiclassova", "multiclass_ova", "ova", "ovr"]);
    lemma_listed(name, seq!["cross_entropy", "xentropy"]);
    lemma_listed(name, seq!["cross_entropy_lambda", "xentlambda"]);
    lemma_listed(name, seq!["rank_xendcg", "xendcg", "xe_ndcg", "xe_ndcg_mart", "xendcg_mart"]);
    lemma_listed(name, seq!["huber", "fair", "poisson", "quantile", "gamma", "tweedie", "binary", "lambdarank", "custom"]);
}

/// Canonicalization of the `regression` group: each alias gives `regression`.
pub proof fn lemma_canonical_regression_group()
    ensures
        canonical_objective_spec("regression"@) matches Some(x) && x == "regression"@,
        canonical_objective_spec("regression_l2"@) matches Some(x) && x == "regression"@,
        canonical_objective_spec("l2"@) matches Some(x) && x == "regression"@,
        canonical_objective_spec("mean_squared_error"@) matches Some(x) && x == "regression"@,
        canonical_objective_spec("mse"@) matches Some(x) && x == "regression"@,
        canonical_objective_spec("l2_root"@) matches Some(x) && x == "regression"@,
        canonical_objective_spec("root_mean_squared_error"@) matches Some(x) && x == "regression"@,
        canonical_objective_spec("rmse"@) matches Some(x) && x == "regression"@,
{
    reveal_strlit("regression");
    reveal_strlit("regression_l2");
    reveal_strlit("l2");
    reveal_strlit("mean_squared_error");
    reveal_strlit("mse");
    reveal_strlit("l2_root");
    reveal_strlit("root_mean_squared_error");
    reveal_strlit("rmse");
    reveal_strlit("regression_l1");
    reveal_strlit("l1");
    reveal_strlit("mean_absolute_error");
    reveal_strlit("mae");
    reveal_strlit("mape");
    reveal_strlit("mean_absolute_percentage_error");
    reveal_strlit("multiclass");
    reveal_strlit("softmax");
    reveal_strlit("multiclassova");
    reveal_strlit("multiclass_ova");
    reveal_strlit("ova");
    reveal_strlit("ovr");
    reveal_strlit("cross_entropy");
    reveal_strlit("xentropy");
    reveal_strlit("cross_entropy_lambda");
    reveal_strlit("xentlambda");
    reveal_strlit("rank_xendcg");
    reveal_strlit("xendcg");
    reveal_strlit("xe_ndcg");
    reveal_strlit("xe_ndcg_mart");
    reveal_strlit("xendcg_mart");
    reveal_strlit("huber");
    reveal_strlit("fair");
    reveal_strlit("poisson");
    reveal_strlit("quantile");
    reveal_strlit("gamma");
    reveal_strlit("tweedie");
    reveal_strlit("binary");
    reveal_strlit("lambdarank");
    reveal_strlit("custom");
    assert("regression"@.len() == 10 && "regression"@[0] == 'r' && "regression"@.last() == 'n');
    assert("regression_l2"@.len() == 13 && "regression_l2"@[0] == 'r' && "regression_l2"@.last() == '2');
    assert("l2"@.len() == 2 && "l2"@[0] == 'l' && "l2"@.last() == '2');
    assert("mean_squared_error"@.len() == 18 && "mean_squared_error"@[0] == 'm' && "mean_squared_error"@.last() == 'r');
    assert("mse"@.len() == 3 && "mse"@[0] == 'm' && "mse"@.last() == 'e');
    assert("l2_root"@.len() == 7 && "l2_root"@[0] == 'l' && "l2_root"@.last() == 't');
    assert("root_mean_squared_error"@.len() == 23 && "root_mean_squared_error"@[0] == 'r' && "root_mean_squared_error"@.last() == 'r');
    assert("rmse"@.len() == 4 && "rmse"@[0] == 'r' && "rmse"@.last() == 'e');
    assert("regression_l1"@.len() == 13 && "regression_l1"@[0] == 'r' && "regression_l1"@.last() == '1');
    assert("l1"@.len() == 2 && "l1"@[0] == 'l' && "l1"@.last() == '1');
    assert("mean_absolute_error"@.len() == 19 && "mean_absolute_error"@[0] == 'm' && "mean_absolute_error"@.last() == 'r');
    assert("mae"@.len() == 3 && "mae"@[0] == 'm' && "mae"@.last() == 'e');
    assert("mape"@.len() == 4 && "mape"@[0] == 'm' && "mape"@.last() == 'e');
    assert("mean_absolute_percentage_error"@.len() == 30 && "mean_absolute_percentage_error"@[0] == 'm' && "mean_absolute_percentage_error"@.last() == 'r');
    assert("multiclass"@.len() == 10 && "multiclass"@[0] == 'm' && "multiclass"@.last() == 's');
    assert("softmax"@.len() == 7 && "softmax"@[0] == 's' && "softmax"@.last() == 'x');
    assert("multiclassova"@.len() == 13 && "multiclassova"@[0] == 'm' && "multiclassova"@.last() == 'a');
    assert("multiclass_ova"@.len() == 14 && "multiclass_ova"@[0] == 'm' && "multiclass_ova"@.last() == 'a');
    assert("ova"@.len() == 3 && "ova"@[0] == 'o' && "ova"@.last() == 'a');
    assert("ovr"@.len() == 3 && "ovr"@[0] == 'o' && "ovr"@.last() == 'r');
    assert("cross_entropy"@.len() == 13 && "cross_entropy"@[0] == 'c' && "cross_entropy"@.last() == 'y');
    assert("xentropy"@.len() == 8 && "xentropy"@[0] == 'x' && "xentropy"@.last() == 'y');
    assert("cross_entropy_lambda"@.len() == 20 && "cross_entropy_lambda"@[0] == 'c' && "cross_entropy_lambda"@.last() == 'a');
    assert("xentlambda"@.len() == 10 && "xentlambda"@[0] == 'x' && "xentlambda"@.last() == 'a');
    assert("rank_xendcg"@.len() == 11 && "rank_xendcg"@[0] == 'r' && "rank_xendcg"@.last() == 'g');
    assert("xendcg"@.len() == 6 && "xendcg"@[0] == 'x' && "xendcg"@.last() == 'g');
    assert("xe_ndcg"@.len() == 7 && "xe_ndcg"@[0] == 'x' && "xe_ndcg"@.last() == 'g');
    assert("xe_ndcg_mart"@.len() == 12 && "xe_ndcg_mart"@[0] == 'x' && "xe_ndcg_mart"@.last() == 't');
    assert("xendcg_mart"@.len() == 11 && "xendcg_mart"@[0] == 'x' && "xendcg_mart"@.last() == 't');
    assert("huber"@.len() == 5 && "huber"@[0] == 'h' && "huber"@.last() == 'r');
    assert("fair"@.len() == 4 && "fair"@[0] == 'f' && "fair"@.last() == 'r');
    assert("poisson"@.len() == 7 && "poisson"@[0] == 'p' && "poisson"@.last() == 'n');
    assert("quantile"@.len() == 8 && "quantile"@[0] == 'q' && "quantile"@.last() == 'e');
    assert("gamma"@.len() == 5 && "gamma"@[0] == 'g' && "gamma"@.last() == 'a');
    assert("tweedie"@.len() == 7 && "tweedie"@[0] == 't' && "tweedie"@.last() == 'e');
    assert("binary"@.len() == 6 && "binary"@[0] == 'b' && "binary"@.last() == 'y');
    assert("lambdarank"@.len() == 10 && "lambdarank"@[0] == 'l' && "lambdarank"@.last() == 'k');
    assert("custom"@.len() == 6 && "custom"@[0] == 'c' && "custom"@.last() == 'm');
    reveal_with_fuel(listed, 10);
    lemma_canonical_by_listing("regression"@);
    lemma_canonical_by_listing("regression_l2"@);
    lemma_canonical_by_listing("l2"@);
    lemma_canonical_by_listing("mean_squared_error"@);
    lemma_canonical_by_listing("mse"@);
    lemma_canonical_by_listing("l2_root"@);
    lemma_canonical_by_listing("root_mean_squared_error"@);
    lemma_canonical_by_listing("rmse"@);
}

/// Canonicalization of the `regression_l1` group: each alias gives `regression_l1`.
pub proof fn lemma_canonical_regression_l1_group()
    ensures
        canonical_objective_spec("regression_l1"@) matches Some(x) && x == "regression_l1"@,
        canonical_objective_spec("l1"@) matches Some(x) && x == "regression_l1"@,
        canonical_objective_spec("mean_absolute_error"@) matches Some(x) && x == "regression_l1"@,
        canonical_objective_spec("mae"@) matches Some(x) && x == "regression_l1"@,
{
    reveal_strlit("regression");
    reveal_strlit("regression_l2");
    reveal_strlit("l2");
    reveal_strlit("mean_squared_error");
    reveal_strlit("mse");
    reveal_strlit("l2_root");
    reveal_strlit("root_mean_squared_error");
    reveal_strlit("rmse");
    reveal_strlit("regression_l1");
    reveal_strlit("l1");
    reveal_strlit("mean_absolute_error");
    reveal_strlit("mae");
    reveal_strlit("mape");
    reveal_strlit("mean_absolute_percentage_error");
    reveal_strlit("multiclass");
    reveal_strlit("softmax");
    reveal_strlit("multiclassova");
    reveal_strlit("multiclass_ova");
    reveal_strlit("ova");
    reveal_strlit("ovr");
    reveal_strlit("cross_entropy");
    reveal_strlit("xentropy");
    reveal_strlit("cross_entropy_lambda");
    reveal_strlit("xentlambda");
    reveal_strlit("rank_xendcg");
    reveal_strlit("xendcg");
    reveal_strlit("xe_ndcg");
    reveal_strlit("xe_ndcg_mart");
    reveal_strlit("xendcg_mart");
    reveal_strlit("huber");
    reveal_strlit("fair");
    reveal_strlit("poisson");
    reveal_strlit("quantile");
    reveal_strlit("gamma");
    reveal_strlit("tweedie");
    reveal_strlit("binary");
    reveal_strlit("lambdarank");
    reveal_strlit("custom");
    assert("regression"@.len() == 10 && "regression"@[0] == 'r' && "regression"@.last() == 'n');
    assert("regression_l2"@.len() == 13 && "regression_l2"@[0] == 'r' && "regression_l2"@.last() == '2');
    assert("l2"@.len() == 2 && "l2"@[0] == 'l' && "l2"@.last() == '2');
    assert("mean_squared_error"@.len() == 18 && "mean_squared_error"@[0] == 'm' && "mean_squared_error"@.last() == 'r');
    assert("mse"@.len() == 3 && "mse"@[0] == 'm' && "mse"@.last() == 'e');
    assert("l2_root"@.len() == 7 && "l2_root"@[0] == 'l' && "l2_root"@.last() == 't');
    assert("root_mean_squared_error"@.len() == 23 && "root_mean_squared_error"@[0] == 'r' && "root_mean_squared_error"@.last() == 'r');
    assert("rmse"@.len() == 4 && "rmse"@[0] == 'r' && "rmse"@.last() == 'e');
    assert("regression_l1"@.len() == 13 && "regression_l1"@[0] == 'r' && "regression_l1"@.last() == '1');
    assert("l1"@.len() == 2 && "l1"@[0] == 'l' && "l1"@.last() == '1');
    assert("mean_absolute_error"@.len() == 19 && "mean_absolute_error"@[0] == 'm' && "mean_absolute_error"@.last() == 'r');
    assert("mae"@.len() == 3 && "mae"@[0] == 'm' && "mae"@.last() == 'e');
    assert("mape"@.len() == 4 && "mape"@[0] == 'm' && "mape"@.last() == 'e');
    assert("mean_absolute_percentage_error"@.len() == 30 && "mean_absolute_percentage_error"@[0] == 'm' && "mean_absolute_percentage_error"@.last() == 'r');
    assert("multiclass"@.len() == 10 && "multiclass"@[0] == 'm' && "multiclass"@.last() == 's');
    assert("softmax"@.len() == 7 && "softmax"@[0] == 's' && "softmax"@.last() == 'x');
    assert("multiclassova"@.len() == 13 && "multiclassova"@[0] == 'm' && "multiclassova"@.last() == 'a');
    assert("multiclass_ova"@.len() == 14 && "multiclass_ova"@[0] == 'm' && "multiclass_ova"@.last() == 'a');
    assert("ova"@.len() == 3 && "ova"@[0] == 'o' && "ova"@.last() == 'a');
    assert("ovr"@.len() == 3 && "ovr"@[0] == 'o' && "ovr"@.last() == 'r');
    assert("cross_entropy"@.len() == 13 && "cross_entropy"@[0] == 'c' && "cross_entropy"@.last() == 'y');
    assert("xentropy"@.len() == 8 && "xentropy"@[0] == 'x' && "xentropy"@.last() == 'y');
    assert("cross_entropy_lambda"@.len() == 20 && "cross_entropy_lambda"@[0] == 'c' && "cross_entropy_lambda"@.last() == 'a');
    assert("xentlambda"@.len() == 10 && "xentlambda"@[0] == 'x' && "xentlambda"@.last() == 'a');
    assert("rank_xendcg"@.len() == 11 && "rank_xendcg"@[0] == 'r' && "rank_xendcg"@.last() == 'g');
    assert("xendcg"@.len() == 6 && "xendcg"@[0] == 'x' && "xendcg"@.last() == 'g');
    assert("xe_ndcg"@.len() == 7 && "xe_ndcg"@[0] == 'x' && "xe_ndcg"@.last() == 'g');
    assert("xe_ndcg_mart"@.len() == 12 && "xe_ndcg_mart"@[0] == 'x' && "xe_ndcg_mart"@.last() == 't');
    assert("xendcg_mart"@.len() == 11 && "xendcg_mart"@[0] == 'x' && "xendcg_mart"@.last() == 't');
    assert("huber"@.len() == 5 && "huber"@[0] == 'h' && "huber"@.last() == 'r');
    assert("fair"@.len() == 4 && "fair"@[0] == 'f' && "fair"@.last() == 'r');
    assert("poisson"@.len() == 7 && "poisson"@[0] == 'p' && "poisson"@.last() == 'n');
    assert("quantile"@.len() == 8 && "quantile"@[0] == 'q' && "quantile"@.last() == 'e');
    assert("gamma"@.len() == 5 && "gamma"@[0] == 'g' && "gamma"@.last() == 'a');
    assert("tweedie"@.len() == 7 && "tweedie"@[0] == 't' && "tweedie"@.last() == 'e');
    assert("binary"@.len() == 6 && "binary"@[0] == 'b' && "binary"@.last() == 'y');
    assert("lambdarank"@.len() == 10 && "lambdarank"@[0] == 'l' && "lambdarank"@.last() == 'k');
    assert("custom"@.len() == 6 && "custom"@[0] == 'c' && "custom"@.last() == 'm');
    assert("mae"@[1] == 'a' && "mse"@[1] == 's');
    reveal_with_fuel(listed, 10);
    lemma_canonical_by_listing("regression_l1"@);
    lemma_canonical_by_listing("l1"@);
    lemma_canonical_by_listing("mean_absolute_error"@);
    lemma_canonical_by_listing("mae"@);
}

/// Canonicalization of the `mape` group: each alias gives `mape`.
pub proof fn lemma_canonical_mape_group()
    ensures
        canonical_objective_spec("mape"@) matches Some(x) && x == "mape"@,
        canonical_objective_spec("mean_absolute_percentage_error"@) matches Some(x) && x == "mape"@,
{
    reveal_strlit("regression");
    reveal_strlit("regression_l2");
    reveal_strlit("l2");
    reveal_strlit("mean_squared_error");
    reveal_strlit("mse");
    reveal_strlit("l2_root");
    reveal_strlit("root_mean_squared_error");
    reveal_strlit("rmse");
    reveal_strlit("regression_l1");
    reveal_strlit("l1");
    reveal_strlit("mean_absolute_error");
    reveal_strlit("mae");
    reveal_strlit("mape");
    reveal_strlit("mean_absolute_percentage_error");
    reveal_strlit("multiclass");
    reveal_strlit("softmax");
    reveal_strlit("multiclassova");
    reveal_strlit("multiclass_ova");
    reveal_strlit("ova");
    reveal_strlit("ovr");
    reveal_strlit("cross_entropy");
    reveal_strlit("xentropy");
    reveal_strlit("cross_entropy_lambda");
    reveal_strlit("xentlambda");
    reveal_strlit("rank_xendcg");
    reveal_strlit("xendcg");
    reveal_strlit("xe_ndcg");
    reveal_strlit("xe_ndcg_mart");
    reveal_strlit("xendcg_mart");
    reveal_strlit("huber");
    reveal_strlit("fair");
    reveal_strlit("poisson");
    reveal_strlit("quantile");
    reveal_strlit("gamma");
    reveal_strlit("tweedie");
    reveal_strlit("binary");
    reveal_strlit("lambdarank");
    reveal_strlit("custom");
    assert("regression"@.len() == 10 && "regression"@[0] == 'r' && "regression"@.last() == 'n');
    assert("regression_l2"@.len() == 13 && "regression_l2"@[0] == 'r' && "regression_l2"@.last() == '2');
    assert("l2"@.len() == 2 && "l2"@[0] == 'l' && "l2"@.last() == '2');
    assert("mean_squared_error"@.len() == 18 && "mean_squared_error"@[0] == 'm' && "mean_squared_error"@.last() == 'r');
    assert("mse"@.len() == 3 && "mse"@[0] == 'm' && "mse"@.last() == 'e');
    assert("l2_root"@.len() == 7 && "l2_root"@[0] == 'l' && "l2_root"@.last() == 't');
    assert("root_mean_squared_error"@.len() == 23 && "root_mean_squared_error"@[0] == 'r' && "root_mean_squared_error"@.last() == 'r');
    assert("rmse"@.len() == 4 && "rmse"@[0] == 'r' && "rmse"@.last() == 'e');
    assert("regression_l1"@.len() == 13 && "regression_l1"@[0] == 'r' && "regression_l1"@.last() == '1');
    assert("l1"@.len() == 2 && "l1"@[0] == 'l' && "l1"@.last() == '1');
    assert("mean_absolute_error"@.len() == 19 && "mean_absolute_error"@[0] == 'm' && "mean_absolute_error"@.last() == 'r');
    assert("mae"@.len() == 3 && "mae"@[0] == 'm' && "mae"@.last() == 'e');
    assert("mape"@.len() == 4 && "mape"@[0] == 'm' && "mape"@.last() == 'e');
    assert("mean_absolute_percentage_error"@.len() == 30 && "mean_absolute_percentage_error"@[0] == 'm' && "mean_absolute_percentage_error"@.last() == 'r');
    assert("multiclass"@.len() == 10 && "multiclass"@[0] == 'm' && "multiclass"@.last() == 's');
    assert("softmax"@.len() == 7 && "softmax"@[0] == 's' && "softmax"@.last() == 'x');
    assert("multiclassova"@.len() == 13 && "multiclassova"@[0] == 'm' && "multiclassova"@.last() == 'a');
    assert("multiclass_ova"@.len() == 14 && "multiclass_ova"@[0] == 'm' && "multiclass_ova"@.last() == 'a');
    assert("ova"@.len() == 3 && "ova"@[0] == 'o' && "ova"@.last() == 'a');
    assert("ovr"@.len() == 3 && "ovr"@[0] == 'o' && "ovr"@.last() == 'r');
    assert("cross_entropy"@.len() == 13 && "cross_entropy"@[0] == 'c' && "cross_entropy"@.last() == 'y');
    assert("xentropy"@.len() == 8 && "xentropy"@[0] == 'x' && "xentropy"@.last() == 'y');
    assert("cross_entropy_lambda"@.len() == 20 && "cross_entropy_lambda"@[0] == 'c' && "cross_entropy_lambda"@.last() == 'a');
    assert("xentlambda"@.len() == 10 && "xentlambda"@[0] == 'x' && "xentlambda"@.last() == 'a');
    assert("rank_xendcg"@.len() == 11 && "rank_xendcg"@[0] == 'r' && "rank_xendcg"@.last() == 'g');
    assert("xendcg"@.len() == 6 && "xendcg"@[0] == 'x' && "xendcg"@.last() == 'g');
    assert("xe_ndcg"@.len() == 7 && "xe_ndcg"@[0] == 'x' && "xe_ndcg"@.last() == 'g');
    assert("xe_ndcg_mart"@.len() == 12 && "xe_ndcg_mart"@[0] == 'x' && "xe_ndcg_mart"@.last() == 't');
    assert("xendcg_mart"@.len() == 11 && "xendcg_mart"@[0] == 'x' && "xendcg_mart"@.last() == 't');
    assert("huber"@.len() == 5 && "huber"@[0] == 'h' && "huber"@.last() == 'r');
    assert("fair"@.len() == 4 && "fair"@[0] == 'f' && "fair"@.last() == 'r');
    assert("poisson"@.len() == 7 && "poisson"@[0] == 'p' && "poisson"@.last() == 'n');
    assert("quantile"@.len() == 8 && "quantile"@[0] == 'q' && "quantile"@.last() == 'e');
    assert("gamma"@.len() == 5 && "gamma"@[0] == 'g' && "gamma"@.last() == 'a');
    assert("tweedie"@.len() == 7 && "tweedie"@[0] == 't' && "tweedie"@.last() == 'e');
    assert("binary"@.len() == 6 && "binary"@[0] == 'b' && "binary"@.last() == 'y');
    assert("lambdarank"@.len() == 10 && "lambdarank"@[0] == 'l' && "lambdarank"@.last() == 'k');
    assert("custom"@.len() == 6 && "custom"@[0] == 'c' && "custom"@.last() == 'm');
    reveal_with_fuel(listed, 10);
    lemma_canonical_by_listing("mape"@);
    lemma_canonical_by_listing("mean_absolute_percentage_error"@);
}

/// Canonicalization of the `multiclass` group: each alias gives `multiclass`.
pub proof fn lemma_canonical_multiclass_group()
    ensures
        canonical_objective_spec("multiclass"@) matches Some(x) && x == "multiclass"@,
        canonical_objective_spec("softmax"@) matches Some(x) && x == "multiclass"@,
{
    reveal_strlit("regression");
    reveal_strlit("regression_l2");
    reveal_strlit("l2");
    reveal_strlit("mean_squared_error");
    reveal_strlit("mse");
    reveal_strlit("l2_root");
    reveal_strlit("root_mean_squared_error");
    reveal_strlit("rmse");
    reveal_strlit("regression_l1");
    reveal_strlit("l1");
    reveal_strlit("mean_absolute_error");
    reveal_strlit("mae");
    reveal_strlit("mape");
    reveal_strlit("mean_absolute_percentage_error");
    reveal_strlit("multiclass");
    reveal_strlit("softmax");
    reveal_strlit("multiclassova");
    reveal_strlit("multiclass_ova");
    reveal_strlit("ova");
    reveal_strlit("ovr");
    reveal_strlit("cross_entropy");
    reveal_strlit("xentropy");
    reveal_strlit("cross_entropy_lambda");
    reveal_strlit("xentlambda");
    reveal_strlit("rank_xendcg");
    reveal_strlit("xendcg");
    reveal_strlit("xe_ndcg");
    reveal_strlit("xe_ndcg_mart");
    reveal_strlit("xendcg_mart");
    reveal_strlit("huber");
    reveal_strlit("fair");
    reveal_strlit("poisson");
    reveal_strlit("quantile");
    reveal_strlit("gamma");
    reveal_strlit("tweedie");
    reveal_strlit("binary");
    reveal_strlit("lambdarank");
    reveal_strlit("custom");
    assert("regression"@.len() == 10 && "regression"@[0] == 'r' && "regression"@.last() == 'n');
    assert("regression_l2"@.len() == 13 && "regression_l2"@[0] == 'r' && "regression_l2"@.last() == '2');
    assert("l2"@.len() == 2 && "l2"@[0] == 'l' && "l2"@.last() == '2');
    assert("mean_squared_error"@.len() == 18 && "mean_squared_error"@[0] == 'm' && "mean_squared_error"@.last() == 'r');
    assert("mse"@.len() == 3 && "mse"@[0] == 'm' && "mse"@.last() == 'e');
    assert("l2_root"@.len() == 7 && "l2_root"@[0] == 'l' && "l2_root"@.last() == 't');
    assert("root_mean_squared_error"@.len() == 23 && "root_mean_squared_error"@[0] == 'r' && "root_mean_squared_error"@.last() == 'r');
    assert("rmse"@.len() == 4 && "rmse"@[0] == 'r' && "rmse"@.last() == 'e');
    assert("regression_l1"@.len() == 13 && "regression_l1"@[0] == 'r' && "regression_l1"@.last() == '1');
    assert("l1"@.len() == 2 && "l1"@[0] == 'l' && "l1"@.last() == '1');
    assert("mean_absolute_error"@.len() == 19 && "mean_absolute_error"@[0] == 'm' && "mean_absolute_error"@.last() == 'r');
    assert("mae"@.len() == 3 && "mae"@[0] == 'm' && "mae"@.last() == 'e');
    assert("mape"@.len() == 4 && "mape"@[0] == 'm' && "mape"@.last() == 'e');
    assert("mean_absolute_percentage_error"@.len() == 30 && "mean_absolute_percentage_error"@[0] == 'm' && "mean_absolute_percentage_error"@.last() == 'r');
    assert("multiclass"@.len() == 10 && "multiclass"@[0] == 'm' && "multiclass"@.last() == 's');
    assert("softmax"@.len() == 7 && "softmax"@[0] == 's' && "softmax"@.last() == 'x');
    assert("multiclassova"@.len() == 13 && "multiclassova"@[0] == 'm' && "multiclassova"@.last() == 'a');
    assert("multiclass_ova"@.len() == 14 && "multiclass_ova"@[0] == 'm' && "multiclass_ova"@.last() == 'a');
    assert("ova"@.len() == 3 && "ova"@[0] == 'o' && "ova"@.last() == 'a');
    assert("ovr"@.len() == 3 && "ovr"@[0] == 'o' && "ovr"@.last() == 'r');
    assert("cross_entropy"@.len() == 13 && "cross_entropy"@[0] == 'c' && "cross_entropy"@.last() == 'y');
    assert("xentropy"@.len() == 8 && "xentropy"@[0] == 'x' && "xentropy"@.last() == 'y');
    assert("cross_entropy_lambda"@.len() == 20 && "cross_entropy_lambda"@[0] == 'c' && "cross_entropy_lambda"@.last() == 'a');
    assert("xentlambda"@.len() == 10 && "xentlambda"@[0] == 'x' && "xentlambda"@.last() == 'a');
    assert("rank_xendcg"@.len() == 11 && "rank_xendcg"@[0] == 'r' && "rank_xendcg"@.last() == 'g');
    assert("xendcg"@.len() == 6 && "xendcg"@[0] == 'x' && "xendcg"@.last() == 'g');
    assert("xe_ndcg"@.len() == 7 && "xe_ndcg"@[0] == 'x' && "xe_ndcg"@.last() == 'g');
    assert("xe_ndcg_mart"@.len() == 12 && "xe_ndcg_mart"@[0] == 'x' && "xe_ndcg_mart"@.last() == 't');
    assert("xendcg_mart"@.len() == 11 && "xendcg_mart"@[0] == 'x' && "xendcg_mart"@.last() == 't');
    assert("huber"@.len() == 5 && "huber"@[0] == 'h' && "huber"@.last() == 'r');
    assert("fair"@.len() == 4 && "fair"@[0] == 'f' && "fair"@.last() == 'r');
    assert("poisson"@.len() == 7 && "poisson"@[0] == 'p' && "poisson"@.last() == 'n');
    assert("quantile"@.len() == 8 && "quantile"@[0] == 'q' && "quantile"@.last() == 'e');
    assert("gamma"@.len() == 5 && "gamma"@[0] == 'g' && "gamma"@.last() == 'a');
    assert("tweedie"@.len() == 7 && "tweedie"@[0] == 't' && "tweedie"@.last() == 'e');
    assert("binary"@.len() == 6 && "binary"@[0] == 'b' && "binary"@.last() == 'y');
    assert("lambdarank"@.len() == 10 && "lambdarank"@[0] == 'l' && "lambdarank"@.last() == 'k');
    assert("custom"@.len() == 6 && "custom"@[0] == 'c' && "custom"@.last() == 'm');
    reveal_with_fuel(listed, 10);
    lemma_canonical_by_listing("multiclass"@);
    lemma_canonical_by_listing("softmax"@);
}

/// Canonicalization of the `multiclassova` group: each alias gives `multiclassova`.
pub proof fn lemma_canonical_multiclassova_group()
    ensures
        canonical_objective_spec("multiclassova"@) matches Some(x) && x == "multiclassova"@,
        canonical_objective_spec("multiclass_ova"@) matches Some(x) && x == "multiclassova"@,
        canonical_objective_spec("ova"@) matches Some(x) && x == "multiclassova"@,
        canonical_objective_spec("ovr"@) matches Some(x) && x == "multiclassova"@,
{
    reveal_strlit("regression");
    reveal_strlit("regression_l2");
    reveal_strlit("l2");
    reveal_strlit("mean_squared_error");
    reveal_strlit("mse");
    reveal_strlit("l2_root");
    reveal_strlit("root_mean_squared_error");
    reveal_strlit("rmse");
    reveal_strlit("regression_l1");
    reveal_strlit("l1");
    reveal_strlit("mean_absolute_error");
    reveal_strlit("mae");
    reveal_strlit("mape");
    reveal_strlit("mean_absolute_percentage_error");
    reveal_strlit("multiclass");
    reveal_strlit("softmax");
    reveal_strlit("multiclassova");
    reveal_strlit("multiclass_ova");
    reveal_strlit("ova");
    reveal_strlit("ovr");
    reveal_strlit("cross_entropy");
    reveal_strlit("xentropy");
    reveal_strlit("cross_entropy_lambda");
    reveal_strlit("xentlambda");
    reveal_strlit("rank_xendcg");
    reveal_strlit("xendcg");
    reveal_strlit("xe_ndcg");
    reveal_strlit("xe_ndcg_mart");
    reveal_strlit("xendcg_mart");
    reveal_strlit("huber");
    reveal_strlit("fair");
    reveal_strlit("poisson");
    reveal_strlit("quantile");
    reveal_strlit("gamma");
    reveal_strlit("tweedie");
    reveal_strlit("binary");
    reveal_strlit("lambdarank");
    reveal_strlit("custom");
    assert("regression"@.len() == 10 && "regression"@[0] == 'r' && "regression"@.last() == 'n');
    assert("regression_l2"@.len() == 13 && "regression_l2"@[0] == 'r' && "regression_l2"@.last() == '2');
    assert("l2"@.len() == 2 && "l2"@[0] == 'l' && "l2"@.last() == '2');
    assert("mean_squared_error"@.len() == 18 && "mean_squared_error"@[0] == 'm' && "mean_squared_error"@.last() == 'r');
    assert("mse"@.len() == 3 && "mse"@[0] == 'm' && "mse"@.last() == 'e');
    assert("l2_root"@.len() == 7 && "l2_root"@[0] == 'l' && "l2_root"@.last() == 't');
    assert("root_mean_squared_error"@.len() == 23 && "root_mean_squared_error"@[0] == 'r' && "root_mean_squared_error"@.last() == 'r');
    assert("rmse"@.len() == 4 && "rmse"@[0] == 'r' && "rmse"@.last() == 'e');
    assert("regression_l1"@.len() == 13 && "regression_l1"@[0] == 'r' && "regression_l1"@.last() == '1');
    assert("l1"@.len() == 2 && "l1"@[0] == 'l' && "l1"@.last() == '1');
    assert("mean_absolute_error"@.len() == 19 && "mean_absolute_error"@[0] == 'm' && "mean_absolute_error"@.last() == 'r');
    assert("mae"@.len() == 3 && "mae"@[0] == 'm' && "mae"@.last() == 'e');
    assert("mape"@.len() == 4 && "mape"@[0] == 'm' && "mape"@.last() == 'e');
    assert("mean_absolute_percentage_error"@.len() == 30 && "mean_absolute_percentage_error"@[0] == 'm' && "mean_absolute_percentage_error"@.last() == 'r');
    assert("multiclass"@.len() == 10 && "multiclass"@[0] == 'm' && "multiclass"@.last() == 's');
    assert("softmax"@.len() == 7 && "softmax"@[0] == 's' && "softmax"@.last() == 'x');
    assert("multiclassova"@.len() == 13 && "multiclassova"@[0] == 'm' && "multiclassova"@.last() == 'a');
    assert("multiclass_ova"@.len() == 14 && "multiclass_ova"@[0] == 'm' && "multiclass_ova"@.last() == 'a');
    assert("ova"@.len() == 3 && "ova"@[0] == 'o' && "ova"@.last() == 'a');
    assert("ovr"@.len() == 3 && "ovr"@[0] == 'o' && "ovr"@.last() == 'r');
    assert("cross_entropy"@.len() == 13 && "cross_entropy"@[0] == 'c' && "cross_entropy"@.last() == 'y');
    assert("xentropy"@.len() == 8 && "xentropy"@[0] == 'x' && "xentropy"@.last() == 'y');
    assert("cross_entropy_lambda"@.len() == 20 && "cross_entropy_lambda"@[0] == 'c' && "cross_entropy_lambda"@.last() == 'a');
    assert("xentlambda"@.len() == 10 && "xentlambda"@[0] == 'x' && "xentlambda"@.last() == 'a');
    assert("rank_xendcg"@.len() == 11 && "rank_xendcg"@[0] == 'r' && "rank_xendcg"@.last() == 'g');
    assert("xendcg"@.len() == 6 && "xendcg"@[0] == 'x' && "xendcg"@.last() == 'g');
    assert("xe_ndcg"@.len() == 7 && "xe_ndcg"@[0] == 'x' && "xe_ndcg"@.last() == 'g');
    assert("xe_ndcg_mart"@.len() == 12 && "xe_ndcg_mart"@[0] == 'x' && "xe_ndcg_mart"@.last() == 't');
    assert("xendcg_mart"@.len() == 11 && "xendcg_mart"@[0] == 'x' && "xendcg_mart"@.last() == 't');
    assert("huber"@.len() == 5 && "huber"@[0] == 'h' && "huber"@.last() == 'r');
    assert("fair"@.len() == 4 && "fair"@[0] == 'f' && "fair"@.last() == 'r');
    assert("poisson"@.len() == 7 && "poisson"@[0] == 'p' && "poisson"@.last() == 'n');
    assert("quantile"@.len() == 8 && "quantile"@[0] == 'q' && "quantile"@.last() == 'e');
    assert("gamma"@.len() == 5 && "gamma"@[0] == 'g' && "gamma"@.last() == 'a');
    assert("tweedie"@.len() == 7 && "tweedie"@[0] == 't' && "tweedie"@.last() == 'e');
    assert("binary"@.len() == 6 && "binary"@[0] == 'b' && "binary"@.last() == 'y');
    assert("lambdarank"@.len() == 10 && "lambdarank"@[0] == 'l' && "lambdarank"@.last() == 'k');
    assert("custom"@.len() == 6 && "custom"@[0] == 'c' && "custom"@.last() == 'm');
    reveal_with_fuel(listed, 10);
    lemma_canonical_by_listing("multiclassova"@);
    lemma_canonical_by_listing("multiclass_ova"@);
    lemma_canonical_by_listing("ova"@);
    lemma_canonical_by_listing("ovr"@);
}

/// Canonicalization of the `cross_entropy` group: each alias gives `cross_entropy`.
pub proof fn lemma_canonical_cross_entropy_group()
    ensures
        canonical_objective_spec("cross_entropy"@) matches Some(x) && x == "cross_entropy"@,
        canonical_objective_spec("xentropy"@) matches Some(x) && x == "cross_entropy"@,
{
    reveal_strlit("regression");
    reveal_strlit("regression_l2");
    reveal_strlit("l2");
    reveal_strlit("mean_squared_error");
    reveal_strlit("mse");
    reveal_strlit("l2_root");
    reveal_strlit("root_mean_squared_error");
    reveal_strlit("rmse");
    reveal_strlit("regression_l1");
    reveal_strlit("l1");
    reveal_strlit("mean_absolute_error");
    reveal_strlit("mae");
    reveal_strlit("mape");
    reveal_strlit("mean_absolute_percentage_error");
    reveal_strlit("multiclass");
    reveal_strlit("softmax");
    reveal_strlit("multiclassova");
    reveal_strlit("multiclass_ova");
    reveal_strlit("ova");
    reveal_strlit("ovr");
    reveal_strlit("cross_entropy");
    reveal_strlit("xentropy");
    reveal_strlit("cross_entropy_lambda");
    reveal_strlit("xentlambda");
    reveal_strlit("rank_xendcg");
    reveal_strlit("xendcg");
    reveal_strlit("xe_ndcg");
    reveal_strlit("xe_ndcg_mart");
    reveal_strlit("xendcg_mart");
    reveal_strlit("huber");
    reveal_strlit("fair");
    reveal_strlit("poisson");
    reveal_strlit("quantile");
    reveal_strlit("gamma");
    reveal_strlit("tweedie");
    reveal_strlit("binary");
    reveal_strlit("lambdarank");
    reveal_strlit("custom");
    assert("regression"@.len() == 10 && "regression"@[0] == 'r' && "regression"@.last() == 'n');
    assert("regression_l2"@.len() == 13 && "regression_l2"@[0] == 'r' && "regression_l2"@.last() == '2');
    assert("l2"@.len() == 2 && "l2"@[0] == 'l' && "l2"@.last() == '2');
    assert("mean_squared_error"@.len() == 18 && "mean_squared_error"@[0] == 'm' && "mean_squared_error"@.last() == 'r');
    assert("mse"@.len() == 3 && "mse"@[0] == 'm' && "mse"@.last() == 'e');
    assert("l2_root"@.len() == 7 && "l2_root"@[0] == 'l' && "l2_root"@.last() == 't');
    assert("root_mean_squared_error"@.len() == 23 && "root_mean_squared_error"@[0] == 'r' && "root_mean_squared_error"@.last() == 'r');
    assert("rmse"@.len() == 4 && "rmse"@[0] == 'r' && "rmse"@.last() == 'e');
    assert("regression_l1"@.len() == 13 && "regression_l1"@[0] == 'r' && "regression_l1"@.last() == '1');
    assert("l1"@.len() == 2 && "l1"@[0] == 'l' && "l1"@.last() == '1');
    assert("mean_absolute_error"@.len() == 19 && "mean_absolute_error"@[0] == 'm' && "mean_absolute_error"@.last() == 'r');
    assert("mae"@.len() == 3 && "mae"@[0] == 'm' && "mae"@.last() == 'e');
    assert("mape"@.len() == 4 && "mape"@[0] == 'm' && "mape"@.last() == 'e');
    assert("mean_absolute_percentage_error"@.len() == 30 && "mean_absolute_percentage_error"@[0] == 'm' && "mean_absolute_percentage_error"@.last() == 'r');
    assert("multiclass"@.len() == 10 && "multiclass"@[0] == 'm' && "multiclass"@.last() == 's');
    assert("softmax"@.len() == 7 && "softmax"@[0] == 's' && "softmax"@.last() == 'x');
    assert("multiclassova"@.len() == 13 && "multiclassova"@[0] == 'm' && "multiclassova"@.last() == 'a');
    assert("multiclass_ova"@.len() == 14 && "multiclass_ova"@[0] == 'm' && "multiclass_ova"@.last() == 'a');
    assert("ova"@.len() == 3 && "ova"@[0] == 'o' && "ova"@.last() == 'a');
    assert("ovr"@.len() == 3 && "ovr"@[0] == 'o' && "ovr"@.last() == 'r');
    assert("cross_entropy"@.len() == 13 && "cross_entropy"@[0] == 'c' && "cross_entropy"@.last() == 'y');
    assert("xentropy"@.len() == 8 && "xentropy"@[0] == 'x' && "xentropy"@.last() == 'y');
    assert("cross_entropy_lambda"@.len() == 20 && "cross_entropy_lambda"@[0] == 'c' && "cross_entropy_lambda"@.last() == 'a');
    assert("xentlambda"@.len() == 10 && "xentlambda"@[0] == 'x' && "xentlambda"@.last() == 'a');
    assert("rank_xendcg"@.len() == 11 && "rank_xendcg"@[0] == 'r' && "rank_xendcg"@.last() == 'g');
    assert("xendcg"@.len() == 6 && "xendcg"@[0] == 'x' && "xendcg"@.last() == 'g');
    assert("xe_ndcg"@.len() == 7 && "xe_ndcg"@[0] == 'x' && "xe_ndcg"@.last() == 'g');
    assert("xe_ndcg_mart"@.len() == 12 && "xe_ndcg_mart"@[0] == 'x' && "xe_ndcg_mart"@.last() == 't');
    assert("xendcg_mart"@.len() == 11 && "xendcg_mart"@[0] == 'x' && "xendcg_mart"@.last() == 't');
    assert("huber"@.len() == 5 && "huber"@[0] == 'h' && "huber"@.last() == 'r');
    assert("fair"@.len() == 4 && "fair"@[0] == 'f' && "fair"@.last() == 'r');
    assert("poisson"@.len() == 7 && "poisson"@[0] == 'p' && "poisson"@.last() == 'n');
    assert("quantile"@.len() == 8 && "quantile"@[0] == 'q' && "quantile"@.last() == 'e');
    assert("gamma"@.len() == 5 && "gamma"@[0] == 'g' && "gamma"@.last() == 'a');
    assert("tweedie"@.len() == 7 && "tweedie"@[0] == 't' && "tweedie"@.last() == 'e');
    assert("binary"@.len() == 6 && "binary"@[0] == 'b' && "binary"@.last() == 'y');
    assert("lambdarank"@.len() == 10 && "lambdarank"@[0] == 'l' && "lambdarank"@.last() == 'k');
    assert("custom"@.len() == 6 && "custom"@[0] == 'c' && "custom"@.last() == 'm');
    reveal_with_fuel(listed, 10);
    lemma_canonical_by_listing("cross_entropy"@);
    lemma_canonical_by_listing("xentropy"@);
}

/// Canonicalization of the `cross_entropy_lambda` group: each alias gives `cross_entropy_lambda`.
pub proof fn lemma_canonical_cross_entropy_lambda_group()
    ensures
        canonical_objective_spec("cross_entropy_lambda"@) matches Some(x) && x == "cross_entropy_lambda"@,
        canonical_objective_spec("xentlambda"@) matches Some(x) && x == "cross_entropy_lambda"@,
{
    reveal_strlit("regression");
    reveal_strlit("regression_l2");
    reveal_strlit("l2");
    reveal_strlit("mean_squared_error");
    reveal_strlit("mse");
    reveal_strlit("l2_root");
    reveal_strlit("root_mean_squared_error");
    reveal_strlit("rmse");
    reveal_strlit("regression_l1");
    reveal_strlit("l1");
    reveal_strlit("mean_absolute_error");
    reveal_strlit("mae");
    reveal_strlit("mape");
    reveal_strlit("mean_absolute_percentage_error");
    reveal_strlit("multiclass");
    reveal_strlit("softmax");
    reveal_strlit("multiclassova");
    reveal_strlit("multiclass_ova");
    reveal_strlit("ova");
    reveal_strlit("ovr");
    reveal_strlit("cross_entropy");
    reveal_strlit("xentropy");
    reveal_strlit("cross_entropy_lambda");
    reveal_strlit("xentlambda");
    reveal_strlit("rank_xendcg");
    reveal_strlit("xendcg");
    reveal_strlit("xe_ndcg");
    reveal_strlit("xe_ndcg_mart");
    reveal_strlit("xendcg_mart");
    reveal_strlit("huber");
    reveal_strlit("fair");
    reveal_strlit("poisson");
    reveal_strlit("quantile");
    reveal_strlit("gamma");
    reveal_strlit("tweedie");
    reveal_strlit("binary");
    reveal_strlit("lambdarank");
    reveal_strlit("custom");
    assert("regression"@.len() == 10 && "regression"@[0] == 'r' && "regression"@.last() == 'n');
    assert("regression_l2"@.len() == 13 && "regression_l2"@[0] == 'r' && "regression_l2"@.last() == '2');
    assert("l2"@.len() == 2 && "l2"@[0] == 'l' && "l2"@.last() == '2');
    assert("mean_squared_error"@.len() == 18 && "mean_squared_error"@[0] == 'm' && "mean_squared_error"@.last() == 'r');
    assert("mse"@.len() == 3 && "mse"@[0] == 'm' && "mse"@.last() == 'e');
    assert("l2_root"@.len() == 7 && "l2_root"@[0] == 'l' && "l2_root"@.last() == 't');
    assert("root_mean_squared_error"@.len() == 23 && "root_mean_squared_error"@[0] == 'r' && "root_mean_squared_error"@.last() == 'r');
    assert("rmse"@.len() == 4 && "rmse"@[0] == 'r' && "rmse"@.last() == 'e');
    assert("regression_l1"@.len() == 13 && "regression_l1"@[0] == 'r' && "regression_l1"@.last() == '1');
    assert("l1"@.len() == 2 && "l1"@[0] == 'l' && "l1"@.last() == '1');
    assert("mean_absolute_error"@.len() == 19 && "mean_absolute_error"@[0] == 'm' && "mean_absolute_error"@.last() == 'r');
    assert("mae"@.len() == 3 && "mae"@[0] == 'm' && "mae"@.last() == 'e');
    assert("mape"@.len() == 4 && "mape"@[0] == 'm' && "mape"@.last() == 'e');
    assert("mean_absolute_percentage_error"@.len() == 30 && "mean_absolute_percentage_error"@[0] == 'm' && "mean_absolute_percentage_error"@.last() == 'r');
    assert("multiclass"@.len() == 10 && "multiclass"@[0] == 'm' && "multiclass"@.last() == 's');
    assert("softmax"@.len() == 7 && "softmax"@[0] == 's' && "softmax"@.last() == 'x');
    assert("multiclassova"@.len() == 13 && "multiclassova"@[0] == 'm' && "multiclassova"@.last() == 'a');
    assert("multiclass_ova"@.len() == 14 && "multiclass_ova"@[0] == 'm' && "multiclass_ova"@.last() == 'a');
    assert("ova"@.len() == 3 && "ova"@[0] == 'o' && "ova"@.last() == 'a');
    assert("ovr"@.len() == 3 && "ovr"@[0] == 'o' && "ovr"@.last() == 'r');
    assert("cross_entropy"@.len() == 13 && "cross_entropy"@[0] == 'c' && "cross_entropy"@.last() == 'y');
    assert("xentropy"@.len() == 8 && "xentropy"@[0] == 'x' && "xentropy"@.last() == 'y');
    assert("cross_entropy_lambda"@.len() == 20 && "cross_entropy_lambda"@[0] == 'c' && "cross_entropy_lambda"@.last() == 'a');
    assert("xentlambda"@.len() == 10 && "xentlambda"@[0] == 'x' && "xentlambda"@.last() == 'a');
    assert("rank_xendcg"@.len() == 11 && "rank_xendcg"@[0] == 'r' && "rank_xendcg"@.last() == 'g');
    assert("xendcg"@.len() == 6 && "xendcg"@[0] == 'x' && "xendcg"@.last() == 'g');
    assert("xe_ndcg"@.len() == 7 && "xe_ndcg"@[0] == 'x' && "xe_ndcg"@.last() == 'g');
    assert("xe_ndcg_mart"@.len() == 12 && "xe_ndcg_mart"@[0] == 'x' && "xe_ndcg_mart"@.last() == 't');
    assert("xendcg_mart"@.len() == 11 && "xendcg_mart"@[0] == 'x' && "xendcg_mart"@.last() == 't');
    assert("huber"@.len() == 5 && "huber"@[0] == 'h' && "huber"@.last() == 'r');
    assert("fair"@.len() == 4 && "fair"@[0] == 'f' && "fair"@.last() == 'r');
    assert("poisson"@.len() == 7 && "poisson"@[0] == 'p' && "poisson"@.last() == 'n');
    assert("quantile"@.len() == 8 && "quantile"@[0] == 'q' && "quantile"@.last() == 'e');
    assert("gamma"@.len() == 5 && "gamma"@[0] == 'g' && "gamma"@.last() == 'a');
    assert("tweedie"@.len() == 7 && "tweedie"@[0] == 't' && "tweedie"@.last() == 'e');
    assert("binary"@.len() == 6 && "binary"@[0] == 'b' && "binary"@.last() == 'y');
    assert("lambdarank"@.len() == 10 && "lambdarank"@[0] == 'l' && "lambdarank"@.last() == 'k');
    assert("custom"@.len() == 6 && "custom"@[0] == 'c' && "custom"@.last() == 'm');
    reveal_with_fuel(listed, 10);
    lemma_canonical_by_listing("cross_entropy_lambda"@);
    lemma_canonical_by_listing("xentlambda"@);
}

/// Canonicalization of the `rank_xendcg` group: each alias gives `rank_xendcg`.
pub proof fn lemma_canonical_rank_xendcg_group()
    ensures
        canonical_objective_spec("rank_xendcg"@) matches Some(x) && x == "rank_xendcg"@,
        canonical_objective_spec("xendcg"@) matches Some(x) && x == "rank_xendcg"@,
        canonical_objective_spec("xe_ndcg"@) matches Some(x) && x == "rank_xendcg"@,
        canonical_objective_spec("xe_ndcg_mart"@) matches Some(x) && x == "rank_xendcg"@,
        canonical_objective_spec("xendcg_mart"@) matches Some(x) && x == "rank_xendcg"@,
{
    reveal_strlit("regression");
    reveal_strlit("regression_l2");
    reveal_strlit("l2");
    reveal_strlit("mean_squared_error");
    reveal_strlit("mse");
    reveal_strlit("l2_root");
    reveal_strlit("root_mean_squared_error");
    reveal_strlit("rmse");
    reveal_strlit("regression_l1");
    reveal_strlit("l1");
    reveal_strlit("mean_absolute_error");
    reveal_strlit("mae");
    reveal_strlit("mape");
    reveal_strlit("mean_absolute_percentage_error");
    reveal_strlit("multiclass");
    reveal_strlit("softmax");
    reveal_strlit("multiclassova");
    reveal_strlit("multiclass_ova");
    reveal_strlit("ova");
    reveal_strlit("ovr");
    reveal_strlit("cross_entropy");
    reveal_strlit("xentropy");
    reveal_strlit("cross_entropy_lambda");
    reveal_strlit("xentlambda");
    reveal_strlit("rank_xendcg");
    reveal_strlit("xendcg");
    reveal_strlit("xe_ndcg");
    reveal_strlit("xe_ndcg_mart");
    reveal_strlit("xendcg_mart");
    reveal_strlit("huber");
    reveal_strlit("fair");
    reveal_strlit("poisson");
    reveal_strlit("quantile");
    reveal_strlit("gamma");
    reveal_strlit("tweedie");
    reveal_strlit("binary");
    reveal_strlit("lambdarank");
    reveal_strlit("custom");
    assert("regression"@.len() == 10 && "regression"@[0] == 'r' && "regression"@.last() == 'n');
    assert("regression_l2"@.len() == 13 && "regression_l2"@[0] == 'r' && "regression_l2"@.last() == '2');
    assert("l2"@.len() == 2 && "l2"@[0] == 'l' && "l2"@.last() == '2');
    assert("mean_squared_error"@.len() == 18 && "mean_squared_error"@[0] == 'm' && "mean_squared_error"@.last() == 'r');
    assert("mse"@.len() == 3 && "mse"@[0] == 'm' && "mse"@.last() == 'e');
    assert("l2_root"@.len() == 7 && "l2_root"@[0] == 'l' && "l2_root"@.last() == 't');
    assert("root_mean_squared_error"@.len() == 23 && "root_mean_squared_error"@[0] == 'r' && "root_mean_squared_error"@.last() == 'r');
    assert("rmse"@.len() == 4 && "rmse"@[0] == 'r' && "rmse"@.last() == 'e');
    assert("regression_l1"@.len() == 13 && "regression_l1"@[0] == 'r' && "regression_l1"@.last() == '1');
    assert("l1"@.len() == 2 && "l1"@[0] == 'l' && "l1"@.last() == '1');
    assert("mean_absolute_error"@.len() == 19 && "mean_absolute_error"@[0] == 'm' && "mean_absolute_error"@.last() == 'r');
    assert("mae"@.len() == 3 && "mae"@[0] == 'm' && "mae"@.last() == 'e');
    assert("mape"@.len() == 4 && "mape"@[0] == 'm' && "mape"@.last() == 'e');
    assert("mean_absolute_percentage_error"@.len() == 30 && "mean_absolute_percentage_error"@[0] == 'm' && "mean_absolute_percentage_error"@.last() == 'r');
    assert("multiclass"@.len() == 10 && "multiclass"@[0] == 'm' && "multiclass"@.last() == 's');
    assert("softmax"@.len() == 7 && "softmax"@[0] == 's' && "softmax"@.last() == 'x');
    assert("multiclassova"@.len() == 13 && "multiclassova"@[0] == 'm' && "multiclassova"@.last() == 'a');
    assert("multiclass_ova"@.len() == 14 && "multiclass_ova"@[0] == 'm' && "multiclass_ova"@.last() == 'a');
    assert("ova"@.len() == 3 && "ova"@[0] == 'o' && "ova"@.last() == 'a');
    assert("ovr"@.len() == 3 && "ovr"@[0] == 'o' && "ovr"@.last() == 'r');
    assert("cross_entropy"@.len() == 13 && "cross_entropy"@[0] == 'c' && "cross_entropy"@.last() == 'y');
    assert("xentropy"@.len() == 8 && "xentropy"@[0] == 'x' && "xentropy"@.last() == 'y');
    assert("cross_entropy_lambda"@.len() == 20 && "cross_entropy_lambda"@[0] == 'c' && "cross_entropy_lambda"@.last() == 'a');
    assert("xentlambda"@.len() == 10 && "xentlambda"@[0] == 'x' && "xentlambda"@.last() == 'a');
    assert("rank_xendcg"@.len() == 11 && "rank_xendcg"@[0] == 'r' && "rank_xendcg"@.last() == 'g');
    assert("xendcg"@.len() == 6 && "xendcg"@[0] == 'x' && "xendcg"@.last() == 'g');
    assert("xe_ndcg"@.len() == 7 && "xe_ndcg"@[0] == 'x' && "xe_ndcg"@.last() == 'g');
    assert("xe_ndcg_mart"@.len() == 12 && "xe_ndcg_mart"@[0] == 'x' && "xe_ndcg_mart"@.last() == 't');
    assert("xendcg_mart"@.len() == 11 && "xendcg_mart"@[0] == 'x' && "xendcg_mart"@.last() == 't');
    assert("huber"@.len() == 5 && "huber"@[0] == 'h' && "huber"@.last() == 'r');
    assert("fair"@.len() == 4 && "fair"@[0] == 'f' && "fair"@.last() == 'r');
    assert("poisson"@.len() == 7 && "poisson"@[0] == 'p' && "poisson"@.last() == 'n');
    assert("quantile"@.len() == 8 && "quantile"@[0] == 'q' && "quantile"@.last() == 'e');
    assert("gamma"@.len() == 5 && "gamma"@[0] == 'g' && "gamma"@.last() == 'a');
    assert("tweedie"@.len() == 7 && "tweedie"@[0] == 't' && "tweedie"@.last() == 'e');
    assert("binary"@.len() == 6 && "binary"@[0] == 'b' && "binary"@.last() == 'y');
    assert("lambdarank"@.len() == 10 && "lambdarank"@[0] == 'l' && "lambdarank"@.last() == 'k');
    assert("custom"@.len() == 6 && "custom"@[0] == 'c' && "custom"@.last() == 'm');
    reveal_with_fuel(listed, 10);
    lemma_canonical_by_listing("rank_xendcg"@);
    lemma_canonical_by_listing("xendcg"@);
    lemma_canonical_by_listing("xe_ndcg"@);
    lemma_canonical_by_listing("xe_ndcg_mart"@);
    lemma_canonical_by_listing("xendcg_mart"@);
}

/// Canonicalization of the `unaliased` group: each name without aliases gives itself.
pub proof fn lemma_canonical_unaliased_group()
    ensures
        canonical_objective_spec("huber"@) matches Some(x) && x == "huber"@,
        canonical_objective_spec("fair"@) matches Some(x) && x == "fair"@,
        canonical_objective_spec("poisson"@) matches Some(x) && x == "poisson"@,
        canonical_objective_spec("quantile"@) matches Some(x) && x == "quantile"@,
        canonical_objective_spec("gamma"@) matches Some(x) && x == "gamma"@,
        canonical_objective_spec("tweedie"@) matches Some(x) && x == "tweedie"@,
        canonical_objective_spec("binary"@) matches Some(x) && x == "binary"@,
        canonical_objective_spec("lambdarank"@) matches Some(x) && x == "lambdarank"@,
        canonical_objective_spec("custom"@) matches Some(x) && x == "custom"@,
{
    reveal_strlit("regression");
    reveal_strlit("regression_l2");
    reveal_strlit("l2");
    reveal_strlit("mean_squared_error");
    reveal_strlit("mse");
    reveal_strlit("l2_root");
    reveal_strlit("root_mean_squared_error");
    reveal_strlit("rmse");
    reveal_strlit("regression_l1");
    reveal_strlit("l1");
    reveal_strlit("mean_absolute_error");
    reveal_strlit("mae");
    reveal_strlit("mape");
    reveal_strlit("mean_absolute_percentage_error");
    reveal_strlit("multiclass");
    reveal_strlit("softmax");
    reveal_strlit("multiclassova");
    reveal_strlit("multiclass_ova");
    reveal_strlit("ova");
    reveal_strlit("ovr");
    reveal_strlit("cross_entropy");
    reveal_strlit("xentropy");
    reveal_strlit("cross_entropy_lambda");
    reveal_strlit("xentlambda");
    reveal_strlit("rank_xendcg");
    reveal_strlit("xendcg");
    reveal_strlit("xe_ndcg");
    reveal_strlit("xe_ndcg_mart");
    reveal_strlit("xendcg_mart");
    reveal_strlit("huber");
    reveal_strlit("fair");
    reveal_strlit("poisson");
    reveal_strlit("quantile");
    reveal_strlit("gamma");
    reveal_strlit("tweedie");
    reveal_strlit("binary");
    reveal_strlit("lambdarank");
    reveal_strlit("custom");
    assert("regression"@.len() == 10 && "regression"@[0] == 'r' && "regression"@.last() == 'n');
    assert("regression_l2"@.len() == 13 && "regression_l2"@[0] == 'r' && "regression_l2"@.last() == '2');
    assert("l2"@.len() == 2 && "l2"@[0] == 'l' && "l2"@.last() == '2');
    assert("mean_squared_error"@.len() == 18 && "mean_squared_error"@[0] == 'm' && "mean_squared_error"@.last() == 'r');
    assert("mse"@.len() == 3 && "mse"@[0] == 'm' && "mse"@.last() == 'e');
    assert("l2_root"@.len() == 7 && "l2_root"@[0] == 'l' && "l2_root"@.last() == 't');
    assert("root_mean_squared_error"@.len() == 23 && "root_mean_squared_error"@[0] == 'r' && "root_mean_squared_error"@.last() == 'r');
    assert("rmse"@.len() == 4 && "rmse"@[0] == 'r' && "rmse"@.last() == 'e');
    assert("regression_l1"@.len() == 13 && "regression_l1"@[0] == 'r' && "regression_l1"@.last() == '1');
    assert("l1"@.len() == 2 && "l1"@[0] == 'l' && "l1"@.last() == '1');
    assert("mean_absolute_error"@.len() == 19 && "mean_absolute_error"@[0] == 'm' && "mean_absolute_error"@.last() == 'r');
    assert("mae"@.len() == 3 && "mae"@[0] == 'm' && "mae"@.last() == 'e');
    assert("mape"@.len() == 4 && "mape"@[0] == 'm' && "mape"@.last() == 'e');
    assert("mean_absolute_percentage_error"@.len() == 30 && "mean_absolute_percentage_error"@[0] == 'm' && "mean_absolute_percentage_error"@.last() == 'r');
    assert("multiclass"@.len() == 10 && "multiclass"@[0] == 'm' && "multiclass"@.last() == 's');
    assert("softmax"@.len() == 7 && "softmax"@[0] == 's' && "softmax"@.last() == 'x');
    assert("multiclassova"@.len() == 13 && "multiclassova"@[0] == 'm' && "multiclassova"@.last() == 'a');
    assert("multiclass_ova"@.len() == 14 && "multiclass_ova"@[0] == 'm' && "multiclass_ova"@.last() == 'a');
    assert("ova"@.len() == 3 && "ova"@[0] == 'o' && "ova"@.last() == 'a');
    assert("ovr"@.len() == 3 && "ovr"@[0] == 'o' && "ovr"@.last() == 'r');
    assert("cross_entropy"@.len() == 13 && "cross_entropy"@[0] == 'c' && "cross_entropy"@.last() == 'y');
    assert("xentropy"@.len() == 8 && "xentropy"@[0] == 'x' && "xentropy"@.last() == 'y');
    assert("cross_entropy_lambda"@.len() == 20 && "cross_entropy_lambda"@[0] == 'c' && "cross_entropy_lambda"@.last() == 'a');
    assert("xentlambda"@.len() == 10 && "xentlambda"@[0] == 'x' && "xentlambda"@.last() == 'a');
    assert("rank_xendcg"@.len() == 11 && "rank_xendcg"@[0] == 'r' && "rank_xendcg"@.last() == 'g');
    assert("xendcg"@.len() == 6 && "xendcg"@[0] == 'x' && "xendcg"@.last() == 'g');
    assert("xe_ndcg"@.len() == 7 && "xe_ndcg"@[0] == 'x' && "xe_ndcg"@.last() == 'g');
    assert("xe_ndcg_mart"@.len() == 12 && "xe_ndcg_mart"@[0] == 'x' && "xe_ndcg_mart"@.last() == 't');
    assert("xendcg_mart"@.len() == 11 && "xendcg_mart"@[0] == 'x' && "xendcg_mart"@.last() == 't');
    assert("huber"@.len() == 5 && "huber"@[0] == 'h' && "huber"@.last() == 'r');
    assert("fair"@.len() == 4 && "fair"@[0] == 'f' && "fair"@.last() == 'r');
    assert("poisson"@.len() == 7 && "poisson"@[0] == 'p' && "poisson"@.last() == 'n');
    assert("quantile"@.len() == 8 && "quantile"@[0] == 'q' && "quantile"@.last() == 'e');
    assert("gamma"@.len() == 5 && "gamma"@[0] == 'g' && "gamma"@.last() == 'a');
    assert("tweedie"@.len() == 7 && "tweedie"@[0] == 't' && "tweedie"@.last() == 'e');
    assert("binary"@.len() == 6 && "binary"@[0] == 'b' && "binary"@.last() == 'y');
    assert("lambdarank"@.len() == 10 && "lambdarank"@[0] == 'l' && "lambdarank"@.last() == 'k');
    assert("custom"@.len() == 6 && "custom"@[0] == 'c' && "custom"@.last() == 'm');
    reveal_with_fuel(listed, 10);
    lemma_canonical_by_listing("huber"@);
    lemma_canonical_by_listing("fair"@);
    lemma_canonical_by_listing("poisson"@);
    lemma_canonical_by_listing("quantile"@);
    lemma_canonical_by_listing("gamma"@);
    lemma_canonical_by_listing("tweedie"@);
    lemma_canonical_by_listing("binary"@);
    lemma_canonical_by_listing("lambdarank"@);
    lemma_canonical_by_listing("custom"@);
}

} // verus!
