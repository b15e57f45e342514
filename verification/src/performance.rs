//! The performance model: cycles, cycles per instruction, execution time and
//! speed relative to a baseline, all in exact integer arithmetic.
//!
//! Costs and clock are whole numbers of whatever unit the caller picks; a
//! quotient is kept as a [`Ratio`] and never rounded.

use vstd::prelude::*;
use crate::instruction::{
    copy_stream,
    decode_all,
    decode_lines,
    texts,
    views,
    Format,
    Instruction,
    InstructionError,
    InstructionView,
};
use crate::techniques::{
    forwading_with_nops,
    forwarding,
    only_nops,
    reorder,
    reordered,
    stall_only,
};
use crate::ranking::{best_performance, is_ranking, names_in_order, shared_baseline};

verus! {

/// A processor organization: a clock parameter and the cycles that an
/// instruction of each format takes.
#[derive(Debug)]
pub struct Organization {
    pub id: String,
    pub clock: u32,
    pub cpi_instruction_r: u32,
    pub cpi_instruction_i: u32,
    pub cpi_instruction_l: u32,
    pub cpi_instruction_s: u32,
    pub cpi_instruction_b: u32,
    pub cpi_instruction_u: u32,
    pub cpi_instruction_j: u32,
}

/// A quotient of two whole numbers, kept unevaluated.
#[derive(Clone, Copy, Debug, PartialEq, Eq, Structural)]
pub struct Ratio {
    pub numerator: u128,
    pub denominator: u128,
}

/// Aggregate figures of one stream under one organization.
#[derive(Clone, Copy, Debug, PartialEq, Eq, Structural)]
pub struct Evaluation {
    pub instruction_count: usize,
    pub total_cycles: u128,
    pub average_cpi: Ratio,
    pub execution_time: u128,
}

/// The figures of one technique set against the baseline.
#[derive(Debug)]
pub struct TechniqueResult {
    pub technique_name: String,
    pub total_cicles: u128,
    pub cicles_diference: i128,
    pub average_cpi: Ratio,
    pub execution_time: u128,
    pub performance: Ratio,
}

/// Which of two organizations runs a program faster, and how many times
/// faster: the slower execution time over the faster one.
#[derive(Clone, Copy, Debug, PartialEq, Eq, Structural)]
pub enum Verdict {
    FirstFaster(Ratio),
    SecondFaster(Ratio),
    EquallyFast,
}

/// The figures of one program under two organizations.
#[derive(Clone, Copy, Debug, PartialEq, Eq, Structural)]
pub struct OrganizationComparison {
    pub organization_a: Evaluation,
    pub organization_b: Evaluation,
    pub best_performance: Verdict,
}

/// What a [`TechniqueResult`] stands for.
pub struct TechniqueFigures {
    pub technique_name: Seq<char>,
    pub total_cicles: nat,
    pub cicles_diference: int,
    pub average_cpi: (nat, nat),
    pub execution_time: nat,
    pub performance: (nat, nat),
}

impl View for TechniqueResult {
    type V = TechniqueFigures;

    open spec fn view(&self) -> TechniqueFigures {
        TechniqueFigures {
            technique_name: self.technique_name@,
            total_cicles: self.total_cicles as nat,
            cicles_diference: self.cicles_diference as int,
            average_cpi: (self.average_cpi.numerator as nat, self.average_cpi.denominator as nat),
            execution_time: self.execution_time as nat,
            performance: (self.performance.numerator as nat, self.performance.denominator as nat),
        }
    }
}

/// The four mitigated streams of one input stream.
#[derive(Debug)]
pub struct Mitigations {
    pub only_nops: Vec<Instruction>,
    pub forwading_with_nops: Vec<Instruction>,
    pub reorder_with_only_nops: Vec<Instruction>,
    pub forwading_and_reorder_with_nops: Vec<Instruction>,
}

/// Who was compared, and the techniques from fastest to slowest.
#[derive(Debug)]
pub struct BasicInformation {
    pub organization_name: String,
    pub organization_clock_time: u32,
    pub bin_file_name: String,
    pub best_performance: Vec<String>,
}

/// A full comparison: the baseline and the four techniques under one
/// organization.
#[derive(Debug)]
pub struct PerformanceCalculator {
    pub basic_information: BasicInformation,
    pub results: Vec<TechniqueResult>,
}

/// The largest baseline cycle count that a difference can be taken against.
pub const MAX_BASELINE_CYCLES: u128 = 0x7fff_ffff_ffff_ffff_ffff_ffff_ffff_ffff;

/// Cycles that an instruction of the given format takes.
pub open spec fn cost(organization: Organization, format: Format) -> nat {
    match format {
        Format::R => organization.cpi_instruction_r as nat,
        Format::I => organization.cpi_instruction_i as nat,
        Format::L => organization.cpi_instruction_l as nat,
        Format::S => organization.cpi_instruction_s as nat,
        Format::B => organization.cpi_instruction_b as nat,
        Format::U => organization.cpi_instruction_u as nat,
        Format::J => organization.cpi_instruction_j as nat,
    }
}

/// Sum of the costs of all instructions of a stream. A bubble is an
/// immediate-arithmetic instruction and costs what format I costs.
pub open spec fn total_cycles(organization: Organization, stream: Seq<InstructionView>) -> nat
    decreases stream.len(),
{
    if stream.len() == 0 {
        0
    } else {
        total_cycles(organization, stream.drop_last()) + cost(organization, stream.last().format)
    }
}

/// Instruction count times average cycles per instruction times clock,
/// where the average is total cycles over instruction count; zero for an
/// empty stream, whose average is undefined.
pub open spec fn execution_time(count: nat, total: nat, clock: nat) -> nat {
    if count == 0 {
        0
    } else {
        (count * total * clock) / count
    }
}

/// Baseline time over technique time; one when the baseline time is zero.
pub open spec fn relative_performance(baseline_time: nat, technique_time: nat) -> (nat, nat) {
    if baseline_time > 0 {
        (baseline_time, technique_time)
    } else {
        (1, 1)
    }
}

/// The figures of a stream as numbers.
pub open spec fn evaluation_of(organization: Organization, stream: Seq<InstructionView>)
    -> Evaluation {
    let total = total_cycles(organization, stream);
    Evaluation {
        instruction_count: stream.len() as usize,
        total_cycles: total as u128,
        average_cpi: Ratio { numerator: total as u128, denominator: stream.len() as u128 },
        execution_time: execution_time(stream.len(), total, organization.clock as nat) as u128,
    }
}

/// No stream costs more than its length times the largest cost.
pub proof fn lemma_total_cycles_bound(organization: Organization, stream: Seq<InstructionView>)
    ensures
        total_cycles(organization, stream) <= stream.len() * 0xffff_ffff,
    decreases stream.len(),
{
    if stream.len() > 0 {
        lemma_total_cycles_bound(organization, stream.drop_last());
        assert((stream.len() - 1) * 0xffff_ffff + 0xffff_ffff == stream.len() * 0xffff_ffff)
            by (nonlinear_arith);
    }
}

/// With a stream that is not empty the instruction count cancels: the
/// execution time is total cycles times clock.
pub proof fn lemma_execution_time(count: nat, total: nat, clock: nat)
    ensures
        count > 0 ==> execution_time(count, total, clock) == total * clock,
        execution_time(count, total, clock) <= total * clock,
{
    if count > 0 {
        assert((count * total * clock) / count == total * clock) by (nonlinear_arith)
            requires
                count > 0,
        ;
    } else {
        assert(0 <= total * clock) by (nonlinear_arith);
    }
}

fn cost_of(organization: &Organization, format: Format) -> (cycles: u32)
    ensures
        cycles == cost(*organization, format),
{
    match format {
        Format::R => organization.cpi_instruction_r,
        Format::I => organization.cpi_instruction_i,
        Format::L => organization.cpi_instruction_l,
        Format::S => organization.cpi_instruction_s,
        Format::B => organization.cpi_instruction_b,
        Format::U => organization.cpi_instruction_u,
        Format::J => organization.cpi_instruction_j,
    }
}

/// Total cycles, average cycles per instruction and execution time of a
/// stream under an organization.
pub fn evaluate(organization: &Organization, instructions: &Vec<Instruction>) -> (figures:
    Evaluation)
    ensures
        figures == evaluation_of(*organization, views(instructions@)),
        figures.instruction_count == instructions.len(),
        figures.total_cycles == total_cycles(*organization, views(instructions@)),
        figures.execution_time == execution_time(
            instructions.len() as nat,
            figures.total_cycles as nat,
            organization.clock as nat,
        ),
{
    let ghost stream = views(instructions@);
    let mut total_cicles: u128 = 0;
    let mut index: usize = 0;
    assert(stream.take(0) =~= Seq::<InstructionView>::empty());
    while index < instructions.len()
        invariant
            index <= instructions.len(),
            stream == views(instructions@),
            total_cicles == total_cycles(*organization, stream.take(index as int)),
            total_cicles <= index * 0xffff_ffff,
        decreases instructions.len() - index,
    {
        let cpi = cost_of(organization, instructions[index].format());
        proof {
            assert(stream.take(index + 1).drop_last() =~= stream.take(index as int));
            assert(index * 0xffff_ffff + 0xffff_ffff == (index + 1) * 0xffff_ffff)
                by (nonlinear_arith);
            assert(index * 0xffff_ffff <= 0xffff_ffff_ffff_ffff * 0xffff_ffff)
                by (nonlinear_arith)
                requires
                    index <= 0xffff_ffff_ffff_ffff,
            ;
        }
        total_cicles = total_cicles + cpi as u128;
        index = index + 1;
    }
    proof {
        assert(stream.take(index as int) =~= stream);
        lemma_execution_time(index as nat, total_cicles as nat, organization.clock as nat);
        assert(total_cicles * organization.clock <= 0xffff_ffff_ffff_ffff * 0xffff_ffff
            * 0xffff_ffff) by (nonlinear_arith)
            requires
                total_cicles <= index * 0xffff_ffff,
                index <= 0xffff_ffff_ffff_ffff,
                organization.clock <= 0xffff_ffff,
        ;
    }
    let execution_time: u128 = if index == 0 {
        0
    } else {
        total_cicles * (organization.clock as u128)
    };
    Evaluation {
        instruction_count: index,
        total_cycles: total_cicles,
        average_cpi: Ratio { numerator: total_cicles, denominator: index as u128 },
        execution_time,
    }
}

/// The faster of two execution times, with the slower over the faster.
pub open spec fn verdict_of(time_a: u128, time_b: u128) -> Verdict {
    if time_a < time_b {
        Verdict::FirstFaster(Ratio { numerator: time_b, denominator: time_a })
    } else if time_a > time_b {
        Verdict::SecondFaster(Ratio { numerator: time_a, denominator: time_b })
    } else {
        Verdict::EquallyFast
    }
}

/// The figures of a stream under two organizations, and the faster one.
pub open spec fn organizations_compared(
    organization_a: Organization,
    organization_b: Organization,
    stream: Seq<InstructionView>,
) -> OrganizationComparison {
    let figures_a = evaluation_of(organization_a, stream);
    let figures_b = evaluation_of(organization_b, stream);
    OrganizationComparison {
        organization_a: figures_a,
        organization_b: figures_b,
        best_performance: verdict_of(figures_a.execution_time, figures_b.execution_time),
    }
}

/// The figures of a stream set against a baseline of `baseline_cicles`
/// cycles and `baseline_exec_time` execution time.
pub open spec fn technique_figures(
    technique_name: Seq<char>,
    organization: Organization,
    stream: Seq<InstructionView>,
    baseline_cicles: nat,
    baseline_exec_time: nat,
) -> TechniqueFigures {
    let total = total_cycles(organization, stream);
    let time = execution_time(stream.len(), total, organization.clock as nat);
    TechniqueFigures {
        technique_name,
        total_cicles: total,
        cicles_diference: total - baseline_cicles,
        average_cpi: (total, stream.len()),
        execution_time: time,
        performance: relative_performance(baseline_exec_time, time),
    }
}

/// The five rows of a comparison, the baseline first.
pub open spec fn comparison_rows(
    organization: Organization,
    baseline: Seq<InstructionView>,
    only_nops: Seq<InstructionView>,
    forwading_with_nops: Seq<InstructionView>,
    reorder_with_only_nops: Seq<InstructionView>,
    forwading_and_reorder_with_nops: Seq<InstructionView>,
) -> Seq<TechniqueFigures> {
    let cicles = total_cycles(organization, baseline);
    let time = execution_time(baseline.len(), cicles, organization.clock as nat);
    seq![
        technique_figures("original"@, organization, baseline, cicles, time),
        technique_figures("only_nops"@, organization, only_nops, cicles, time),
        technique_figures("forwading_with_nops"@, organization, forwading_with_nops, cicles, time),
        technique_figures(
            "reorder_with_only_nops"@,
            organization,
            reorder_with_only_nops,
            cicles,
            time,
        ),
        technique_figures(
            "forwading_and_reorder_with_nops"@,
            organization,
            forwading_and_reorder_with_nops,
            cicles,
            time,
        ),
    ]
}

/// Views of a list of results, row by row.
pub open spec fn rows(results: Seq<TechniqueResult>) -> Seq<TechniqueFigures> {
    Seq::new(results.len(), |i: int| results[i]@)
}

/// The four mitigated streams of `stream`.
pub open spec fn mitigations_match(mitigations: Mitigations, stream: Seq<InstructionView>)
    -> bool {
    &&& views(mitigations.only_nops@) == stall_only(stream)
    &&& views(mitigations.forwading_with_nops@) == forwarding(stream)
    &&& views(mitigations.reorder_with_only_nops@) == reordered(stall_only(stream))
    &&& views(mitigations.forwading_and_reorder_with_nops@) == reordered(forwarding(stream))
}

/// Whether `report` and `streams` are the comparison of the four techniques
/// on `stream` under `organization`: the streams are the mitigated ones, the
/// rows are the baseline and the four techniques costed and set against the
/// baseline, and the names are ranked by descending relative performance,
/// rows of equal performance in the order of the rows.
pub open spec fn comparison_of(
    report: PerformanceCalculator,
    streams: Mitigations,
    organization: Organization,
    bin_file_name: Seq<char>,
    stream: Seq<InstructionView>,
) -> bool {
    &&& mitigations_match(streams, stream)
    &&& rows(report.results@) == comparison_rows(
        organization,
        stream,
        stall_only(stream),
        forwarding(stream),
        reordered(stall_only(stream)),
        reordered(forwarding(stream)),
    )
    &&& exists|order: Seq<usize>|
        is_ranking(order, report.results@) && names_in_order(
            report.basic_information.best_performance@,
            report.results@,
            order,
        )
    &&& report.basic_information.organization_name@ == organization.id@
    &&& report.basic_information.organization_clock_time == organization.clock
    &&& report.basic_information.bin_file_name@ == bin_file_name
}

/// Runs the four techniques on one stream.
pub fn mitigate(instructions: &Vec<Instruction>) -> (mitigations: Mitigations)
    ensures
        mitigations_match(mitigations, views(instructions@)),
{
    let only_nops = only_nops(copy_stream(instructions));
    let forwading_with_nops = forwading_with_nops(copy_stream(instructions));
    let reorder_with_only_nops = reorder(copy_stream(&only_nops));
    let forwading_and_reorder_with_nops = reorder(copy_stream(&forwading_with_nops));
    Mitigations {
        only_nops,
        forwading_with_nops,
        reorder_with_only_nops,
        forwading_and_reorder_with_nops,
    }
}

impl PerformanceCalculator {
    /// Costs one program under two organizations and says which of them
    /// runs it faster, and how many times faster.
    pub fn calc(
        organization_a: &Organization,
        organization_b: &Organization,
        instructions: &Vec<Instruction>,
    ) -> (compared: OrganizationComparison)
        ensures
            compared == organizations_compared(
                *organization_a,
                *organization_b,
                views(instructions@),
            ),
    {
        let figures_a = evaluate(organization_a, instructions);
        let figures_b = evaluate(organization_b, instructions);
        let execution_time_a = figures_a.execution_time;
        let execution_time_b = figures_b.execution_time;
        let best_performance = if execution_time_a < execution_time_b {
            Verdict::FirstFaster(
                Ratio { numerator: execution_time_b, denominator: execution_time_a },
            )
        } else if execution_time_a > execution_time_b {
            Verdict::SecondFaster(
                Ratio { numerator: execution_time_a, denominator: execution_time_b },
            )
        } else {
            Verdict::EquallyFast
        };
        OrganizationComparison {
            organization_a: figures_a,
            organization_b: figures_b,
            best_performance,
        }
    }

    /// The figures of one technique's stream set against the baseline.
    pub fn calc_performance(
        organization: &Organization,
        instructions: &Vec<Instruction>,
        baseline_cicles: u128,
        baseline_exec_time: u128,
        technique_name: String,
    ) -> (result: TechniqueResult)
        requires
            baseline_cicles <= MAX_BASELINE_CYCLES,
        ensures
            result@ == technique_figures(
                technique_name@,
                *organization,
                views(instructions@),
                baseline_cicles as nat,
                baseline_exec_time as nat,
            ),
    {
        let figures = evaluate(organization, instructions);
        proof {
            lemma_total_cycles_bound(*organization, views(instructions@));
            assert(instructions.len() * 0xffff_ffff <= 0xffff_ffff_ffff_ffff * 0xffff_ffff)
                by (nonlinear_arith)
                requires
                    instructions.len() <= 0xffff_ffff_ffff_ffff,
            ;
        }
        let cicles_diference: i128 = figures.total_cycles as i128 - baseline_cicles as i128;
        let performance = if baseline_exec_time > 0 {
            Ratio { numerator: baseline_exec_time, denominator: figures.execution_time }
        } else {
            Ratio { numerator: 1, denominator: 1 }
        };
        TechniqueResult {
            technique_name,
            total_cicles: figures.total_cycles,
            cicles_diference,
            average_cpi: figures.average_cpi,
            execution_time: figures.execution_time,
            performance,
        }
    }

    /// The baseline and the four techniques, each costed under
    /// `organization` and set against the baseline.
    pub fn calc_techniques(
        organization: &Organization,
        instructions: &Vec<Instruction>,
        only_nops: &Vec<Instruction>,
        forwading_with_nops: &Vec<Instruction>,
        reorder_with_only_nops: &Vec<Instruction>,
        forwading_and_reorder_with_nops: &Vec<Instruction>,
    ) -> (techniques_result: Vec<TechniqueResult>)
        ensures
            rows(techniques_result@) == comparison_rows(
                *organization,
                views(instructions@),
                views(only_nops@),
                views(forwading_with_nops@),
                views(reorder_with_only_nops@),
                views(forwading_and_reorder_with_nops@),
            ),
            shared_baseline(techniques_result@),
    {
        let baseline = evaluate(organization, instructions);
        proof {
            lemma_total_cycles_bound(*organization, views(instructions@));
            assert(instructions.len() * 0xffff_ffff <= 0xffff_ffff_ffff_ffff * 0xffff_ffff)
                by (nonlinear_arith)
                requires
                    instructions.len() <= 0xffff_ffff_ffff_ffff,
            ;
        }
        let total_cicles = baseline.total_cycles;
        let execution_time = baseline.execution_time;
        let baseline_row = Self::calc_performance(
            organization,
            instructions,
            total_cicles,
            execution_time,
            "original".to_owned(),
        );
        let only_nops_result = Self::calc_performance(
            organization,
            only_nops,
            total_cicles,
            execution_time,
            "only_nops".to_owned(),
        );
        let forwading_with_nops_result = Self::calc_performance(
            organization,
            forwading_with_nops,
            total_cicles,
            execution_time,
            "forwading_with_nops".to_owned(),
        );
        let reorder_with_only_nops_result = Self::calc_performance(
            organization,
            reorder_with_only_nops,
            total_cicles,
            execution_time,
            "reorder_with_only_nops".to_owned(),
        );
        let forwading_and_reorder_with_nops_result = Self::calc_performance(
            organization,
            forwading_and_reorder_with_nops,
            total_cicles,
            execution_time,
            "forwading_and_reorder_with_nops".to_owned(),
        );
        let mut techniques_result: Vec<TechniqueResult> = Vec::new();
        techniques_result.push(baseline_row);
        techniques_result.push(only_nops_result);
        techniques_result.push(forwading_with_nops_result);
        techniques_result.push(reorder_with_only_nops_result);
        techniques_result.push(forwading_and_reorder_with_nops_result);
        assert(rows(techniques_result@) =~= comparison_rows(
            *organization,
            views(instructions@),
            views(only_nops@),
            views(forwading_with_nops@),
            views(reorder_with_only_nops@),
            views(forwading_and_reorder_with_nops@),
        ));
        techniques_result
    }

    /// Compares the four techniques on one program under one organization,
    /// and ranks them with the baseline from fastest to slowest. The
    /// mitigated streams are handed back beside the figures.
    ///
    /// The program is decoded first. A line that cannot be decoded fails the
    /// whole comparison with the error of the first such line; there is no
    /// partial result.
    pub fn calc_pipeline(
        organization: &Organization,
        bin_file_name: String,
        lines: &Vec<String>,
    ) -> (outcome: Result<(PerformanceCalculator, Mitigations), InstructionError>)
        ensures
            match outcome {
                Ok(compared) => decode_all(texts(lines@)) matches Ok(stream) && comparison_of(
                    compared.0,
                    compared.1,
                    *organization,
                    bin_file_name@,
                    stream,
                ),
                Err(error) => decode_all(texts(lines@)) == Err::<
                    Seq<InstructionView>,
                    InstructionError,
                >(error),
            },
    {
        let instructions = match decode_lines(lines) {
            Ok(instructions) => instructions,
            Err(error) => {
                return Err(error);
            },
        };
        let mitigations = mitigate(&instructions);
        let results = Self::calc_techniques(
            organization,
            &instructions,
            &mitigations.only_nops,
            &mitigations.forwading_with_nops,
            &mitigations.reorder_with_only_nops,
            &mitigations.forwading_and_reorder_with_nops,
        );
        let best_performance = best_performance(&results);
        let basic_information = BasicInformation {
            organization_name: organization.id.clone(),
            organization_clock_time: organization.clock,
            bin_file_name,
            best_performance,
        };
        Ok((PerformanceCalculator { basic_information, results }, mitigations))
    }
}

} // verus!
