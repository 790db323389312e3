//! The usage table's rows: whether the table fits its area, which history period counts as
//! current, and which rows the table shows in which order. In history mode the table shows one
//! row per period, followed in breakdown mode by one sub-row per model of that period; otherwise
//! one row per model. A total row always comes last.

use crate::app::UiState;
use crate::date::Date;
use crate::scope::Scope;
use vstd::prelude::*;

verus! {

/// A row of the usage table, by what it shows.
#[derive(Debug, Clone, Copy, PartialEq, Eq, Structural)]
pub enum PlannedRow {
    /// The summary row of the history period `period`; `current` when that period is current.
    Period { period: usize, current: bool },
    /// The sub-row of the model `model` of the history period `period`.
    PeriodModel { period: usize, model: usize, current: bool },
    /// The row of the model `model` of the detail table.
    Model { model: usize },
    /// The total row.
    Total,
}

/// The table is drawn only in an area of at least 3 rows and 20 columns.
pub fn table_fits(height: u16, width: u16) -> (b: bool)
    ensures
        b == (height >= 3 && width >= 20),
{
    height >= 3 && width >= 20
}

/// Whether the history period starting on `d` is current: it is today, or it lies in this
/// week's window while the week is shown, or in this month's while the month is shown.
pub fn is_current_period(
    d: Date,
    today: Date,
    scope: Scope,
    week: Option<Date>,
    month: Option<Date>,
) -> (b: bool)
    ensures
        b == (d.days == today.days || (scope == Scope::Week && (week matches Some(w) && d.days
            >= w.days)) || (scope == Scope::Month && (month matches Some(m) && d.days >= m.days))),
{
    if d.days == today.days {
        return true;
    }
    match scope {
        Scope::Week => match week {
            Some(w) => d.days >= w.days,
            None => false,
        },
        Scope::Month => match month {
            Some(m) => d.days >= m.days,
            None => false,
        },
        Scope::Today => false,
    }
}

/// The rows of one history period: its summary row, then, in breakdown mode, one sub-row for
/// each of its `n` models.
pub open spec fn period_block(breakdown: bool, k: int, current: bool, n: int) -> Seq<PlannedRow> {
    seq![PlannedRow::Period { period: k as usize, current }] + if breakdown {
        Seq::new(n as nat, |j: int| PlannedRow::PeriodModel { period: k as usize, model: j as usize, current })
    } else {
        Seq::empty()
    }
}

/// The rows of the first `n` history periods, in order.
pub open spec fn history_rows(
    breakdown: bool,
    current: Seq<bool>,
    models: Seq<usize>,
    n: nat,
) -> Seq<PlannedRow>
    decreases n,
{
    if n == 0 {
        Seq::empty()
    } else {
        history_rows(breakdown, current, models, (n - 1) as nat) + period_block(
            breakdown,
            n - 1,
            current[n - 1],
            models[n - 1] as int,
        )
    }
}

/// The table's rows: the history periods (with their model sub-rows in breakdown mode) when
/// history is shown and there are periods, otherwise the `n_models` detail rows; then the total.
pub open spec fn row_plan(
    ui: UiState,
    current: Seq<bool>,
    models: Seq<usize>,
    n_models: usize,
) -> Seq<PlannedRow> {
    (if ui.show_history && current.len() > 0 {
        history_rows(ui.breakdown, current, models, current.len())
    } else {
        Seq::new(n_models as nat, |i: int| PlannedRow::Model { model: i as usize })
    }).push(PlannedRow::Total)
}

/// The table's rows for the view `ui`, given for each history period whether it is current and
/// how many models it has, and the number of detail rows (see `row_plan`).
pub fn plan_rows(ui: UiState, current: &[bool], models_per_period: &[usize], n_models: usize) -> (rows:
    Vec<PlannedRow>)
    requires
        current@.len() == models_per_period@.len(),
    ensures
        rows@ == row_plan(ui, current@, models_per_period@, n_models),
{
    let mut rows: Vec<PlannedRow> = Vec::new();
    if ui.show_history && current.len() > 0 {
        let mut i: usize = 0;
        while i < current.len()
            invariant
                i <= current@.len(),
                current@.len() == models_per_period@.len(),
                rows@ == history_rows(ui.breakdown, current@, models_per_period@, i as nat),
            decreases current@.len() - i,
        {
            let cur = current[i];
            let ghost before = rows@;
            rows.push(PlannedRow::Period { period: i, current: cur });
            if ui.breakdown {
                let n = models_per_period[i];
                let mut j: usize = 0;
                while j < n
                    invariant
                        j <= n,
                        rows@ == before + seq![PlannedRow::Period { period: i, current: cur }]
                            + Seq::new(
                            j as nat,
                            |m: int| PlannedRow::PeriodModel { period: i, model: m as usize, current: cur },
                        ),
                    decreases n - j,
                {
                    rows.push(PlannedRow::PeriodModel { period: i, model: j, current: cur });
                    proof {
                        assert(Seq::new(
                            (j + 1) as nat,
                            |m: int| PlannedRow::PeriodModel { period: i, model: m as usize, current: cur },
                        ) =~= Seq::new(
                            j as nat,
                            |m: int| PlannedRow::PeriodModel { period: i, model: m as usize, current: cur },
                        ).push(PlannedRow::PeriodModel { period: i, model: j, current: cur }));
                    }
                    assert(rows@ =~= before + seq![PlannedRow::Period { period: i, current: cur }]
                        + Seq::new(
                        (j + 1) as nat,
                        |m: int| PlannedRow::PeriodModel { period: i, model: m as usize, current: cur },
                    ));
                    j = j + 1;
                }
                assert(rows@ =~= history_rows(
                    ui.breakdown,
                    current@,
                    models_per_period@,
                    (i + 1) as nat,
                ));
            } else {
                assert(rows@ =~= history_rows(
                    ui.breakdown,
                    current@,
                    models_per_period@,
                    (i + 1) as nat,
                ));
            }
            i = i + 1;
        }
    } else {
        let mut i: usize = 0;
        while i < n_models
            invariant
                i <= n_models,
                rows@ == Seq::new(i as nat, |k: int| PlannedRow::Model { model: k as usize }),
            decreases n_models - i,
        {
            rows.push(PlannedRow::Model { model: i });
            assert(rows@ =~= Seq::new((i + 1) as nat, |k: int| PlannedRow::Model { model: k as usize }));
            i = i + 1;
        }
    }
    rows.push(PlannedRow::Total);
    rows
}

/// In history mode with periods, the model sub-rows appear exactly in breakdown mode: without
/// breakdown the table shows one row per period and the total.
pub proof fn law_breakdown_sub_rows(ui: UiState, current: Seq<bool>, models: Seq<usize>, n_models: usize)
    requires
        ui.show_history,
        current.len() > 0,
        current.len() == models.len(),
        !ui.breakdown,
    ensures
        row_plan(ui, current, models, n_models).len() == current.len() + 1,
        forall|k: int|
            0 <= k < current.len() ==> row_plan(ui, current, models, n_models)[k] == (
            PlannedRow::Period { period: k as usize, current: current[k] }),
{
    lemma_history_rows_flat(current, models, current.len());
}

/// Without breakdown, the first `n` periods give one summary row each.
proof fn lemma_history_rows_flat(current: Seq<bool>, models: Seq<usize>, n: nat)
    requires
        n <= current.len(),
    ensures
        history_rows(false, current, models, n).len() == n,
        forall|k: int|
            0 <= k < n ==> #[trigger] history_rows(false, current, models, n)[k] == (
            PlannedRow::Period { period: k as usize, current: current[k] }),
    decreases n,
{
    if n > 0 {
        lemma_history_rows_flat(current, models, (n - 1) as nat);
        let prev = history_rows(false, current, models, (n - 1) as nat);
        assert(history_rows(false, current, models, n) =~= prev.push(
            PlannedRow::Period { period: (n - 1) as usize, current: current[n - 1] },
        ));
    }
}

/// Outside history mode, or with no periods, the table shows the detail rows in order and then
/// the total, whatever the breakdown setting.
pub proof fn law_model_rows(ui: UiState, current: Seq<bool>, models: Seq<usize>, n_models: usize)
    requires
        !ui.show_history || current.len() == 0,
    ensures
        row_plan(ui, current, models, n_models).len() == n_models + 1,
        forall|k: int|
            0 <= k < n_models ==> row_plan(ui, current, models, n_models)[k] == (PlannedRow::Model {
                model: k as usize,
            }),
        row_plan(ui, current, models, n_models)[n_models as int] == PlannedRow::Total,
        row_plan(UiState { breakdown: !ui.breakdown, ..ui }, current, models, n_models)
            == row_plan(ui, current, models, n_models),
{
}

/// The number of models of the first `n` history periods.
pub open spec fn models_total(models: Seq<usize>, n: nat) -> int
    decreases n,
{
    if n == 0 {
        0
    } else {
        models_total(models, (n - 1) as nat) + models[n - 1]
    }
}

/// At position `p` of the rows stands the summary row of period `k`, directly followed by the
/// sub-rows of its models `0` to `n - 1`, in order.
pub open spec fn block_at(rows: Seq<PlannedRow>, p: int, k: int, current: bool, n: int) -> bool {
    &&& 0 <= p
    &&& p + n < rows.len()
    &&& rows[p] == PlannedRow::Period { period: k as usize, current }
    &&& forall|m: int|
        0 <= m < n ==> #[trigger] rows[p + 1 + m] == (PlannedRow::PeriodModel {
            period: k as usize,
            model: m as usize,
            current,
        })
}

/// In history mode with breakdown, each period gives its summary row followed by one sub-row
/// for every one of its models: the table has one row per period, one per model of each period
/// and the total, and the summary row of period `k` stands after the rows of the periods before
/// it (`k` summary rows and their models' sub-rows), directly followed by the sub-rows of all of
/// period `k`'s models.
pub proof fn law_breakdown_rows_every_model(
    ui: UiState,
    current: Seq<bool>,
    models: Seq<usize>,
    n_models: usize,
)
    requires
        ui.show_history,
        ui.breakdown,
        current.len() > 0,
        current.len() == models.len(),
    ensures
        row_plan(ui, current, models, n_models).len() == current.len() + models_total(
            models,
            current.len(),
        ) + 1,
        forall|k: int|
            0 <= k < current.len() ==> #[trigger] block_at(
                row_plan(ui, current, models, n_models),
                k + models_total(models, k as nat),
                k,
                current[k],
                models[k] as int,
            ),
{
    lemma_breakdown_rows(current, models, current.len());
    let h = history_rows(true, current, models, current.len());
    let plan = row_plan(ui, current, models, n_models);
    assert(plan == h.push(PlannedRow::Total));
    assert forall|k: int| 0 <= k < current.len() implies #[trigger] block_at(
        plan,
        k + models_total(models, k as nat),
        k,
        current[k],
        models[k] as int,
    ) by {
        let p = k + models_total(models, k as nat);
        assert(block_at(h, p, k, current[k], models[k] as int));
        assert forall|m: int| 0 <= m < models[k] implies #[trigger] plan[p + 1 + m] == (
        PlannedRow::PeriodModel { period: k as usize, model: m as usize, current: current[k] }) by {
            assert(plan[p + 1 + m] == h[p + 1 + m]);
        }
        assert(plan[p] == h[p]);
    }
}

/// The breakdown rows of the first `n` periods: their count, and where each period's block
/// lies.
proof fn lemma_breakdown_rows(current: Seq<bool>, models: Seq<usize>, n: nat)
    requires
        n <= current.len(),
        current.len() == models.len(),
    ensures
        history_rows(true, current, models, n).len() == n + models_total(models, n),
        forall|k: int|
            0 <= k < n ==> #[trigger] block_at(
                history_rows(true, current, models, n),
                k + models_total(models, k as nat),
                k,
                current[k],
                models[k] as int,
            ),
    decreases n,
{
    if n > 0 {
        let prev = history_rows(true, current, models, (n - 1) as nat);
        let last = n - 1;
        let block = period_block(true, last, current[last], models[last] as int);
        let h = history_rows(true, current, models, n);
        lemma_breakdown_rows(current, models, (n - 1) as nat);
        assert(h == prev + block);
        assert forall|k: int| 0 <= k < n implies #[trigger] block_at(
            h,
            k + models_total(models, k as nat),
            k,
            current[k],
            models[k] as int,
        ) by {
            let p = k + models_total(models, k as nat);
            if k < last {
                assert(block_at(prev, p, k, current[k], models[k] as int));
                assert(h[p] == prev[p]);
                assert forall|m: int| 0 <= m < models[k] implies #[trigger] h[p + 1 + m] == (
                PlannedRow::PeriodModel { period: k as usize, model: m as usize, current: current[k] }) by {
                    assert(h[p + 1 + m] == prev[p + 1 + m]);
                }
            } else {
                assert(p == prev.len());
                assert(h[p] == block[0]);
                assert forall|m: int| 0 <= m < models[k] implies #[trigger] h[p + 1 + m] == (
                PlannedRow::PeriodModel { period: k as usize, model: m as usize, current: current[k] }) by {
                    assert(h[p + 1 + m] == block[1 + m]);
                }
            }
        }
    }
}

} // verus!
