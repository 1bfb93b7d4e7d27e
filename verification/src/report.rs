//! The report: which categories each row of the results averages over.

use crate::simulation::{
    category_of, is_balanced, model_count, State, CATEGORIES, LIVE, NO_DATA, SUCCESS,
};
use vstd::prelude::*;
use vstd::string::StringExecFns;

verus! {

/// One row of the report: the losses of the failing hops and of the succeeding hops, each averaged
/// over the entries of some categories.
#[derive(Debug)]
pub struct ReportRow {
    /// What the row is about.
    pub name: String,
    /// The categories of the failing hops.
    pub failure_categories: Vec<usize>,
    /// How many entries those have.
    pub failure_count: u64,
    /// The categories of the succeeding hops.
    pub success_categories: Vec<usize>,
    /// How many entries those have.
    pub success_count: u64,
}

/// What a [`ReportRow`] says.
pub struct ReportRowView {
    pub name: Seq<char>,
    pub failure_categories: Seq<usize>,
    pub failure_count: int,
    pub success_categories: Seq<usize>,
    pub success_count: int,
}

impl View for ReportRow {
    type V = ReportRowView;

    open spec fn view(&self) -> ReportRowView {
        ReportRowView {
            name: self.name@,
            failure_categories: self.failure_categories@,
            failure_count: self.failure_count as int,
            success_categories: self.success_categories@,
            success_count: self.success_count as int,
        }
    }
}

/// The report on one model.
#[derive(Debug)]
pub struct ModelReport {
    /// The hops over channels with data, then those over channels without.
    pub by_data: Vec<ReportRow>,
    /// All the hops.
    pub total: ReportRow,
}

/// How a model is called in the report. The names are of the same length.
pub open spec fn model_name(live: bool) -> Seq<char> {
    if live {
        "Live Bounds Model"@
    } else {
        "Historical Model "@
    }
}

/// How the hops over channels without data, or with it, are called in the report.
pub open spec fn data_name(no_data: bool) -> Seq<char> {
    if no_data {
        " (w/ insufficient data)"@
    } else {
        " (w/ some channel hist)"@
    }
}

/// How many entries some categories have.
pub open spec fn count_of(counts: Seq<u64>, categories: Seq<usize>) -> int
    decreases categories.len(),
{
    if categories.len() == 0 {
        0
    } else {
        count_of(counts, categories.drop_last()) + counts[categories.last() as int]
    }
}

/// The row of a name and of some categories.
pub open spec fn row_of(
    counts: Seq<u64>,
    name: Seq<char>,
    failure_categories: Seq<usize>,
    success_categories: Seq<usize>,
) -> ReportRowView {
    ReportRowView {
        name,
        failure_categories,
        failure_count: count_of(counts, failure_categories),
        success_categories,
        success_count: count_of(counts, success_categories),
    }
}

/// The row on the hops that a model was asked about over channels without data, or with it.
pub open spec fn data_row(counts: Seq<u64>, live: bool, no_data: bool) -> ReportRowView {
    row_of(
        counts,
        model_name(live) + data_name(no_data),
        seq![category_of(live, no_data, false)],
        seq![category_of(live, no_data, true)],
    )
}

/// The row on all the hops that a model was asked about.
pub open spec fn total_row(counts: Seq<u64>, live: bool) -> ReportRowView {
    row_of(
        counts,
        model_name(live),
        seq![category_of(live, false, false), category_of(live, true, false)],
        seq![category_of(live, false, true), category_of(live, true, true)],
    )
}

/// Whether the counts of each row can be written down.
pub open spec fn totals_fit(counts: Seq<u64>) -> bool {
    forall|live: bool, success: bool|
        counts[#[trigger] category_of(live, false, success) as int] + counts[category_of(
            live,
            true,
            success,
        ) as int] <= u64::MAX
}

proof fn lemma_count_of_pair(counts: Seq<u64>, a: usize, b: usize)
    ensures
        count_of(counts, seq![a, b]) == count_of(counts, seq![a]) + count_of(counts, seq![b]),
{
    reveal_with_fuel(count_of, 3);
    assert(seq![a, b].drop_last() == seq![a]);
    assert(seq![a].drop_last() == Seq::<usize>::empty());
    assert(seq![b].drop_last() == Seq::<usize>::empty());
}

/// The counts in the total row of a model are the sums of those in its other two rows.
pub proof fn law_total_adds_up(counts: Seq<u64>, live: bool)
    ensures
        ({
            let with = data_row(counts, live, false);
            let without = data_row(counts, live, true);
            let total = total_row(counts, live);
            &&& total.failure_count == with.failure_count + without.failure_count
            &&& total.success_count == with.success_count + without.success_count
            &&& total.failure_categories == with.failure_categories + without.failure_categories
            &&& total.success_categories == with.success_categories + without.success_categories
        }),
{
    lemma_count_of_pair(counts, category_of(live, false, false), category_of(live, true, false));
    lemma_count_of_pair(counts, category_of(live, false, true), category_of(live, true, true));
    let with = data_row(counts, live, false);
    let without = data_row(counts, live, true);
    let total = total_row(counts, live);
    assert(total.failure_categories =~= with.failure_categories + without.failure_categories);
    assert(total.success_categories =~= with.success_categories + without.success_categories);
}

/// One more category adds its own count.
pub proof fn law_categories_add_their_counts(
    counts: Seq<u64>,
    categories: Seq<usize>,
    category: usize,
)
    ensures
        count_of(counts, Seq::empty()) == 0,
        count_of(counts, categories.push(category)) == count_of(counts, categories)
            + counts[category as int],
{
    assert(categories.push(category).drop_last() == categories);
}

/// The rows of a model by data have its two categories with data, or its two without, and the counts
/// of just these. Their names begin with that of the model and tell which of the two it is.
pub proof fn law_row_counts_its_own_categories(counts: Seq<u64>, live: bool, no_data: bool)
    ensures
        ({
            let row = data_row(counts, live, no_data);
            let first: usize = if live && no_data {
                6
            } else if live {
                4
            } else if no_data {
                2
            } else {
                0
            };
            &&& row.failure_categories == seq![first]
            &&& row.success_categories == seq![(first + 1) as usize]
            &&& row.failure_count == counts[first as int]
            &&& row.success_count == counts[first + 1]
            &&& live && no_data ==> row.name == "Live Bounds Model"@ + " (w/ insufficient data)"@
            &&& live && !no_data ==> row.name == "Live Bounds Model"@ + " (w/ some channel hist)"@
            &&& !live && no_data ==> row.name == "Historical Model "@ + " (w/ insufficient data)"@
            &&& !live && !no_data ==> row.name == "Historical Model "@
                + " (w/ some channel hist)"@
        }),
{
    lemma_count_of_one(counts, category_of(live, no_data, false));
    lemma_count_of_one(counts, category_of(live, no_data, true));
}

/// The total row of a model has its four categories, and the counts of just these: those of the
/// failing hops on one side, those of the succeeding hops on the other. It is called as the model.
pub proof fn law_total_counts_its_own_categories(counts: Seq<u64>, live: bool)
    ensures
        ({
            let row = total_row(counts, live);
            let first: usize = if live {
                4
            } else {
                0
            };
            &&& row.failure_categories == seq![first, (first + 2) as usize]
            &&& row.success_categories == seq![(first + 1) as usize, (first + 3) as usize]
            &&& row.failure_count == counts[first as int] + counts[first + 2]
            &&& row.success_count == counts[first + 1] + counts[first + 3]
            &&& live ==> row.name == "Live Bounds Model"@
            &&& !live ==> row.name == "Historical Model "@
        }),
{
    law_total_adds_up(counts, live);
    lemma_count_of_one(counts, category_of(live, false, false));
    lemma_count_of_one(counts, category_of(live, true, false));
    lemma_count_of_one(counts, category_of(live, false, true));
    lemma_count_of_one(counts, category_of(live, true, true));
}

/// In any row the counts are those of the categories of the row.
pub proof fn law_row_adds_up_its_categories(
    counts: Seq<u64>,
    name: Seq<char>,
    failure_categories: Seq<usize>,
    success_categories: Seq<usize>,
)
    ensures
        ({
            let row = row_of(counts, name, failure_categories, success_categories);
            &&& row.name == name
            &&& row.failure_categories == failure_categories
            &&& row.success_categories == success_categories
            &&& row.failure_count == count_of(counts, row.failure_categories)
            &&& row.success_count == count_of(counts, row.success_categories)
        }),
{
}

/// The counts of the rows can be written down exactly where the four sums of the total rows can.
pub proof fn law_totals_fit_where_sums_do(counts: Seq<u64>)
    ensures
        totals_fit(counts) <==> (counts[0] + counts[2] <= u64::MAX && counts[1] + counts[3]
            <= u64::MAX && counts[4] + counts[6] <= u64::MAX && counts[5] + counts[7] <= u64::MAX),
{
    assert(category_of(false, false, false) == 0 && category_of(false, true, false) == 2);
    assert(category_of(false, false, true) == 1 && category_of(false, true, true) == 3);
    assert(category_of(true, false, false) == 4 && category_of(true, true, false) == 6);
    assert(category_of(true, false, true) == 5 && category_of(true, true, true) == 7);
}

/// What a row says is what its fields hold.
pub proof fn law_row_says_its_fields(row: ReportRow)
    ensures
        row@.name == row.name@,
        row@.failure_categories == row.failure_categories@,
        row@.failure_count == row.failure_count,
        row@.success_categories == row.success_categories@,
        row@.success_count == row.success_count,
{
}

/// Both models are averaged over as many hops that succeeded, and as many that failed, where the
/// counts are balanced.
pub proof fn law_models_are_compared_on_the_same_hops(counts: Seq<u64>)
    requires
        is_balanced(counts),
    ensures
        total_row(counts, false).failure_count == total_row(counts, true).failure_count,
        total_row(counts, false).success_count == total_row(counts, true).success_count,
{
    assert forall|live: bool, success: bool|
        count_of(
            counts,
            seq![category_of(live, false, success), category_of(live, true, success)],
        ) == #[trigger] model_count(counts, live, success) by {
        lemma_count_of_pair(
            counts,
            category_of(live, false, success),
            category_of(live, true, success),
        );
        lemma_count_of_one(counts, category_of(live, false, success));
        lemma_count_of_one(counts, category_of(live, true, success));
    }
    assert(model_count(counts, false, false) == model_count(counts, true, false));
    assert(model_count(counts, false, true) == model_count(counts, true, true));
}

proof fn lemma_count_of_one(counts: Seq<u64>, category: usize)
    ensures
        count_of(counts, seq![category]) == counts[category as int],
{
    reveal_with_fuel(count_of, 2);
    assert(seq![category].drop_last() == Seq::<usize>::empty());
}

/// The rows of a model depend on the counts of its own four categories alone.
pub proof fn law_rows_depend_on_their_model_alone(a: Seq<u64>, b: Seq<u64>, live: bool)
    requires
        forall|no_data: bool, success: bool|
            a[#[trigger] category_of(live, no_data, success) as int] == b[category_of(
                live,
                no_data,
                success,
            ) as int],
    ensures
        data_row(a, live, false) == data_row(b, live, false),
        data_row(a, live, true) == data_row(b, live, true),
        total_row(a, live) == total_row(b, live),
{
    assert forall|no_data: bool, success: bool|
        count_of(a, seq![#[trigger] category_of(live, no_data, success)]) == count_of(
            b,
            seq![category_of(live, no_data, success)],
        ) by {
        lemma_count_of_one(a, category_of(live, no_data, success));
        lemma_count_of_one(b, category_of(live, no_data, success));
    }
    law_total_adds_up(a, live);
    law_total_adds_up(b, live);
    assert(data_row(a, live, false) == data_row(b, live, false));
    assert(data_row(a, live, true) == data_row(b, live, true));
}

/// The categories of the historical model are the first four, and those of the live model the other
/// four.
pub proof fn law_models_have_their_own_categories(live: bool, no_data: bool, success: bool)
    ensures
        category_of(live, no_data, success) < CATEGORIES,
        live <==> category_of(live, no_data, success) >= LIVE,
{
}

/// Every category stands in exactly one row by model and data, on the side of the hops of its kind:
/// no entry is left out of the report or averaged twice.
pub proof fn law_rows_cover_categories(counts: Seq<u64>, category: usize)
    requires
        category < CATEGORIES,
    ensures
        exists|live: bool, no_data: bool, success: bool| #[trigger]
            category_of(live, no_data, success) == category,
        forall|live: bool, no_data: bool|
            (#[trigger] data_row(counts, live, no_data)).failure_categories.contains(category)
                <==> category == category_of(live, no_data, false),
        forall|live: bool, no_data: bool|
            (#[trigger] data_row(counts, live, no_data)).success_categories.contains(category)
                <==> category == category_of(live, no_data, true),
        forall|l1: bool, d1: bool, s1: bool, l2: bool, d2: bool, s2: bool| #[trigger]
            category_of(l1, d1, s1) == #[trigger] category_of(l2, d2, s2) ==> l1 == l2 && d1 == d2
                && s1 == s2,
{
    assert(category_of(category >= 4, category % 4 >= 2, category % 2 == 1) == category);
    assert forall|live: bool, no_data: bool|
        (#[trigger] data_row(counts, live, no_data)).failure_categories.contains(category)
            <==> category == category_of(live, no_data, false) by {
        assert(data_row(counts, live, no_data).failure_categories[0] == category_of(
            live,
            no_data,
            false,
        ));
    }
    assert forall|live: bool, no_data: bool|
        (#[trigger] data_row(counts, live, no_data)).success_categories.contains(category)
            <==> category == category_of(live, no_data, true) by {
        assert(data_row(counts, live, no_data).success_categories[0] == category_of(
            live,
            no_data,
            true,
        ));
    }
}

/// Adds the counts of some categories up.
fn sum_counts(counts: &[u64; 8], categories: &Vec<usize>) -> (sum: u64)
    requires
        forall|i: int| 0 <= i < categories@.len() ==> #[trigger] categories@[i] < CATEGORIES,
        forall|n: int|
            0 <= n <= categories@.len() ==> count_of(counts@, #[trigger] categories@.take(n))
                <= u64::MAX,
    ensures
        sum == count_of(counts@, categories@),
{
    let mut sum: u64 = 0;
    let mut i: usize = 0;
    while i < categories.len()
        invariant
            i <= categories@.len(),
            sum == count_of(counts@, categories@.take(i as int)),
            forall|j: int| 0 <= j < categories@.len() ==> #[trigger] categories@[j] < CATEGORIES,
            forall|n: int|
                0 <= n <= categories@.len() ==> count_of(counts@, #[trigger] categories@.take(n))
                    <= u64::MAX,
        decreases categories@.len() - i,
    {
        assert(categories@.take(i + 1).drop_last() == categories@.take(i as int));
        assert(count_of(counts@, categories@.take(i + 1)) <= u64::MAX);
        sum = sum + counts[categories[i]];
        i = i + 1;
    }
    assert(categories@.take(i as int) == categories@);
    sum
}

/// One row of the report.
fn row(
    counts: &[u64; 8],
    name: String,
    failure_categories: Vec<usize>,
    success_categories: Vec<usize>,
) -> (row: ReportRow)
    requires
        forall|i: int|
            0 <= i < failure_categories@.len() ==> #[trigger] failure_categories@[i] < CATEGORIES,
        forall|i: int|
            0 <= i < success_categories@.len() ==> #[trigger] success_categories@[i] < CATEGORIES,
        forall|n: int|
            0 <= n <= failure_categories@.len() ==> count_of(
                counts@,
                #[trigger] failure_categories@.take(n),
            ) <= u64::MAX,
        forall|n: int|
            0 <= n <= success_categories@.len() ==> count_of(
                counts@,
                #[trigger] success_categories@.take(n),
            ) <= u64::MAX,
    ensures
        row@ == row_of(counts@, name@, failure_categories@, success_categories@),
{
    let failure_count = sum_counts(counts, &failure_categories);
    let success_count = sum_counts(counts, &success_categories);
    ReportRow { name, failure_categories, failure_count, success_categories, success_count }
}

/// The sums over the first categories of a short list.
proof fn lemma_short_counts(counts: Seq<u64>, categories: Seq<usize>)
    requires
        counts.len() == CATEGORIES,
        1 <= categories.len() <= 2,
        categories.len() == 2 ==> counts[categories[0] as int] + counts[categories[1] as int]
            <= u64::MAX,
    ensures
        forall|n: int|
            0 <= n <= categories.len() ==> count_of(counts, #[trigger] categories.take(n))
                <= u64::MAX,
{
    reveal_with_fuel(count_of, 3);
    assert(categories.take(1).drop_last() == Seq::<usize>::empty());
    if categories.len() == 2 {
        assert(categories.take(2).drop_last() == categories.take(1));
    }
}

/// The report on one model.
fn model_report(counts: &[u64; 8], live: bool) -> (report: ModelReport)
    requires
        totals_fit(counts@),
    ensures
        report.by_data@.len() == 2,
        report.by_data@[0]@ == data_row(counts@, live, false),
        report.by_data@[1]@ == data_row(counts@, live, true),
        report.total@ == total_row(counts@, live),
{
    let flags: usize = if live {
        LIVE
    } else {
        0
    };
    let category_name = if live {
        "Live Bounds Model".to_owned()
    } else {
        "Historical Model ".to_owned()
    };
    let mut by_data: Vec<ReportRow> = Vec::new();
    let mut no_data: usize = 0;
    while no_data < 2
        invariant
            no_data <= 2,
            flags == category_of(live, false, false),
            category_name@ == model_name(live),
            by_data@.len() == no_data,
            no_data > 0 ==> by_data@[0]@ == data_row(counts@, live, false),
            no_data > 1 ==> by_data@[1]@ == data_row(counts@, live, true),
        decreases 2 - no_data,
    {
        let row_flags: usize = flags + no_data * NO_DATA;
        let mut name = category_name.clone();
        if no_data != 0 {
            name.append(" (w/ insufficient data)");
        } else {
            name.append(" (w/ some channel hist)");
        }
        let failing: Vec<usize> = vec![row_flags];
        let succeeding: Vec<usize> = vec![row_flags + SUCCESS];
        proof {
            assert(failing@ == seq![category_of(live, no_data == 1, false)]);
            assert(succeeding@ == seq![category_of(live, no_data == 1, true)]);
            lemma_short_counts(counts@, failing@);
            lemma_short_counts(counts@, succeeding@);
        }
        by_data.push(row(counts, name, failing, succeeding));
        no_data = no_data + 1;
    }
    let failing: Vec<usize> = vec![flags, flags + NO_DATA];
    let succeeding: Vec<usize> = vec![flags + SUCCESS, flags + NO_DATA + SUCCESS];
    proof {
        assert(failing@ == seq![category_of(live, false, false), category_of(live, true, false)]);
        assert(succeeding@ == seq![category_of(live, false, true), category_of(live, true, true)]);
        lemma_short_counts(counts@, failing@);
        lemma_short_counts(counts@, succeeding@);
    }
    let total = row(counts, category_name, failing, succeeding);
    ModelReport { by_data, total }
}

/// Whether the counts of each row can be written down.
pub fn totals_can_be_counted(counts: &[u64; 8]) -> (fit: bool)
    ensures
        fit == totals_fit(counts@),
{
    let mut flags: usize = 0;
    while flags < CATEGORIES
        invariant
            flags == 0 || flags == 4 || flags == 8,
            forall|live: bool, success: bool|
                #[trigger] category_of(live, false, success) < flags ==> counts@[category_of(
                    live,
                    false,
                    success,
                ) as int] + counts@[category_of(live, true, success) as int] <= u64::MAX,
        decreases CATEGORIES - flags,
    {
        let failing_fit = counts[flags].checked_add(counts[flags + NO_DATA]).is_some();
        let succeeding_fit = counts[flags + SUCCESS].checked_add(
            counts[flags + SUCCESS + NO_DATA],
        ).is_some();
        if !failing_fit || !succeeding_fit {
            assert(flags == category_of(flags == 4, false, false));
            assert(flags + SUCCESS == category_of(flags == 4, false, true));
            return false;
        }
        flags = flags + LIVE;
    }
    true
}

/// This is run after all probe results have been processed: it tells what to print.
///
/// We break out log-loss for failure and success hops and print averages between the two
/// (rather than in aggregate) as there are substantially more succeeding hops than there are
/// failing hops. The first report is on the LDK historical model, the second one on the live bounds
/// model.
pub fn results_complete(state: State) -> (reports: Vec<ModelReport>)
    requires
        totals_fit(state.result_count@),
    ensures
        reports@.len() == 2,
        forall|m: int|
            #![trigger reports@[m]]
            0 <= m < 2 ==> {
                let report = reports@[m];
                &&& report.by_data@.len() == 2
                &&& report.by_data@[0]@ == data_row(state.result_count@, m == 1, false)
                &&& report.by_data@[1]@ == data_row(state.result_count@, m == 1, true)
                &&& report.total@ == total_row(state.result_count@, m == 1)
            },
{
    let mut reports: Vec<ModelReport> = Vec::new();
    reports.push(model_report(&state.result_count, false));
    reports.push(model_report(&state.result_count, true));
    reports
}

} // verus!
