use vstd::prelude::*;

verus! {

/// Microseconds in a second.
pub const MICROS_PER_SECOND: u64 = 1000000;

/// Jobs per second in hundredths, rounded down: `jobs / seconds * 100`.
pub open spec fn rate_hundredths(jobs: nat, elapsed_micros: nat) -> nat
    recommends
        elapsed_micros > 0,
{
    jobs * 100 * 1000000 / elapsed_micros
}

/// The summary of a finished run: how many jobs it had and how long it took.
pub struct RunReport {
    pub jobs: u64,
    pub elapsed_micros: u64,
}

impl RunReport {
    /// The report of a run of `jobs` jobs that took `elapsed_micros` microseconds.
    pub fn new(jobs: u64, elapsed_micros: u64) -> (r: Self)
        ensures
            r.jobs == jobs,
            r.elapsed_micros == elapsed_micros,
    {
        RunReport { jobs, elapsed_micros }
    }

    /// The throughput in hundredths of a job per second, rounded down. There
    /// is none when no time could be measured; a run of no jobs has rate 0.
    pub fn rate_hundredths(&self) -> (r: Option<u128>)
        ensures
            self.elapsed_micros == 0 ==> r is None,
            self.elapsed_micros > 0 ==> r == Some(
                rate_hundredths(self.jobs as nat, self.elapsed_micros as nat) as u128,
            ),
    {
        if self.elapsed_micros == 0 {
            return None;
        }
        let scaled: u128 = (self.jobs as u128) * 100 * (MICROS_PER_SECOND as u128);
        assert((self.jobs as u128) * 100 * 1000000 <= 18446744073709551615u128 * 100000000)
            by (nonlinear_arith)
            requires
                self.jobs <= 18446744073709551615u64,
        ;
        Some(scaled / (self.elapsed_micros as u128))
    }

    /// The elapsed time in hundredths of a second, rounded down.
    pub fn elapsed_hundredths(&self) -> (r: u64)
        ensures
            r == self.elapsed_micros / 10000,
    {
        self.elapsed_micros / 10000
    }
}

} // verus!
