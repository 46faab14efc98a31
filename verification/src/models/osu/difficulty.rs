//! The `[Difficulty]` section. All six settings are in thousandths.

use vstd::prelude::*;
use crate::models::osu::general::{error_of, first_error};
use crate::utils::numbers::{append_fixed, fixed_text};
use crate::utils::sections::{entries, fixed_entry, read_entries};

verus! {

#[derive(Debug, Clone, Copy, PartialEq, Eq, Structural)]
pub struct Difficulty {
    pub hp_drain_rate: i64,
    pub circle_size: i64,
    pub overall_difficulty: i64,
    pub approach_rate: i64,
    pub slider_multiplier: i64,
    pub slider_tick_rate: i64,
}

/// Between 0 and 10.
pub open spec fn in_scale(v: i64) -> bool {
    0 <= v <= 10_000
}

impl Default for Difficulty {
    fn default() -> (d: Self)
        ensures
            d == (Difficulty {
                hp_drain_rate: 5000,
                circle_size: 5000,
                overall_difficulty: 5000,
                approach_rate: 5000,
                slider_multiplier: 1400,
                slider_tick_rate: 1000,
            }),
    {
        Self {
            hp_drain_rate: 5000,
            circle_size: 5000,
            overall_difficulty: 5000,
            approach_rate: 5000,
            slider_multiplier: 1400,
            slider_tick_rate: 1000,
        }
    }
}

impl Difficulty {
    /// The messages of the entries, in the order in which they are read.
    pub open spec fn section_errors(e: Seq<(Seq<char>, Seq<char>)>) -> Seq<Option<Seq<char>>> {
        seq![
            error_of(fixed_entry(e, "HPDrainRate"@, 5000)),
            error_of(fixed_entry(e, "CircleSize"@, 5000)),
            error_of(fixed_entry(e, "OverallDifficulty"@, 5000)),
            error_of(fixed_entry(e, "ApproachRate"@, 5000)),
            error_of(fixed_entry(e, "SliderMultiplier"@, 1400)),
            error_of(fixed_entry(e, "SliderTickRate"@, 1000)),
        ]
    }

    /// `self` holds what the entries say, and defaults for the rest.
    pub open spec fn holds(&self, e: Seq<(Seq<char>, Seq<char>)>) -> bool {
        &&& Ok::<i64, Seq<char>>(self.hp_drain_rate) == fixed_entry(e, "HPDrainRate"@, 5000)
        &&& Ok::<i64, Seq<char>>(self.circle_size) == fixed_entry(e, "CircleSize"@, 5000)
        &&& Ok::<i64, Seq<char>>(self.overall_difficulty) == fixed_entry(
            e,
            "OverallDifficulty"@,
            5000,
        )
        &&& Ok::<i64, Seq<char>>(self.approach_rate) == fixed_entry(e, "ApproachRate"@, 5000)
        &&& Ok::<i64, Seq<char>>(self.slider_multiplier) == fixed_entry(
            e,
            "SliderMultiplier"@,
            1400,
        )
        &&& Ok::<i64, Seq<char>>(self.slider_tick_rate) == fixed_entry(e, "SliderTickRate"@, 1000)
    }

    /// Reads the section. The first entry that cannot be read is the error.
    pub fn from_str(s: &str) -> (r: Result<Difficulty, String>)
        ensures
            match r {
                Ok(d) => first_error(Self::section_errors(entries(s@))) is None && d.holds(
                    entries(s@),
                ),
                Err(msg) => first_error(Self::section_errors(entries(s@))) == Some(msg@),
            },
    {
        let e = read_entries(s);
        proof {
            reveal_with_fuel(first_error, 7);
        }
        let hp_drain_rate = match e.fixed_value("HPDrainRate", 5000) {
            Ok(n) => n,
            Err(msg) => {
                return Err(msg);
            },
        };
        let circle_size = match e.fixed_value("CircleSize", 5000) {
            Ok(n) => n,
            Err(msg) => {
                return Err(msg);
            },
        };
        let overall_difficulty = match e.fixed_value("OverallDifficulty", 5000) {
            Ok(n) => n,
            Err(msg) => {
                return Err(msg);
            },
        };
        let approach_rate = match e.fixed_value("ApproachRate", 5000) {
            Ok(n) => n,
            Err(msg) => {
                return Err(msg);
            },
        };
        let slider_multiplier = match e.fixed_value("SliderMultiplier", 1400) {
            Ok(n) => n,
            Err(msg) => {
                return Err(msg);
            },
        };
        let slider_tick_rate = match e.fixed_value("SliderTickRate", 1000) {
            Ok(n) => n,
            Err(msg) => {
                return Err(msg);
            },
        };
        Ok(
            Difficulty {
                hp_drain_rate,
                circle_size,
                overall_difficulty,
                approach_rate,
                slider_multiplier,
                slider_tick_rate,
            },
        )
    }

    pub fn new(
        hp_drain_rate: i64,
        circle_size: i64,
        overall_difficulty: i64,
        approach_rate: i64,
        slider_multiplier: i64,
        slider_tick_rate: i64,
    ) -> (d: Self)
        ensures
            d == (Difficulty {
                hp_drain_rate,
                circle_size,
                overall_difficulty,
                approach_rate,
                slider_multiplier,
                slider_tick_rate,
            }),
    {
        Self {
            hp_drain_rate,
            circle_size,
            overall_difficulty,
            approach_rate,
            slider_multiplier,
            slider_tick_rate,
        }
    }

    /// The four scales lie between 0 and 10, and the two slider settings are
    /// positive.
    pub fn is_valid(&self) -> (b: bool)
        ensures
            b == (in_scale(self.hp_drain_rate) && in_scale(self.circle_size) && in_scale(
                self.overall_difficulty,
            ) && in_scale(self.approach_rate) && self.slider_multiplier > 0
                && self.slider_tick_rate > 0),
    {
        0 <= self.hp_drain_rate && self.hp_drain_rate <= 10_000 && 0 <= self.circle_size
            && self.circle_size <= 10_000 && 0 <= self.overall_difficulty
            && self.overall_difficulty <= 10_000 && 0 <= self.approach_rate && self.approach_rate
            <= 10_000 && self.slider_multiplier > 0 && self.slider_tick_rate > 0
    }

    /// The sum of the four scales.
    pub open spec fn scale_sum(&self) -> int {
        self.hp_drain_rate + self.circle_size + self.overall_difficulty + self.approach_rate
    }

    /// The name of the difficulty by the mean of the four scales: below 2
    /// easy, below 2.7 normal, below 4 hard, below 5.3 insane, below 6.5
    /// expert, and expert+ from there.
    pub open spec fn rating(&self) -> Seq<char> {
        if self.scale_sum() < 8_000 {
            "Easy"@
        } else if self.scale_sum() < 10_800 {
            "Normal"@
        } else if self.scale_sum() < 16_000 {
            "Hard"@
        } else if self.scale_sum() < 21_200 {
            "Insane"@
        } else if self.scale_sum() < 26_000 {
            "Expert"@
        } else {
            "Expert+"@
        }
    }

    pub fn difficulty_rating(&self) -> (s: &'static str)
        ensures
            s@ == self.rating(),
    {
        let sum: i128 = self.hp_drain_rate as i128 + self.circle_size as i128
            + self.overall_difficulty as i128 + self.approach_rate as i128;
        if sum < 8_000 {
            "Easy"
        } else if sum < 10_800 {
            "Normal"
        } else if sum < 16_000 {
            "Hard"
        } else if sum < 21_200 {
            "Insane"
        } else if sum < 26_000 {
            "Expert"
        } else {
            "Expert+"
        }
    }

    /// The radius of a circle in pixels, 54.4 less 4.48 for each point of
    /// circle size; in hundred-thousandths.
    pub fn circle_size_pixels(&self) -> (r: i128)
        ensures
            r == 5_440_000 - 448 * self.circle_size,
    {
        5_440_000 - 448 * (self.circle_size as i128)
    }

    /// The time for which a circle shows before it is hit, in thousandths of
    /// a millisecond: 1800 ms less 120 for each point of approach rate below
    /// 5, 1950 ms less 150 for each point from 5 on.
    pub fn approach_rate_ms(&self) -> (r: i128)
        ensures
            r == if self.approach_rate < 5000 {
                1_800_000 - 120 * self.approach_rate
            } else {
                1_950_000 - 150 * self.approach_rate
            },
    {
        if self.approach_rate < 5000 {
            1_800_000 - 120 * (self.approach_rate as i128)
        } else {
            1_950_000 - 150 * (self.approach_rate as i128)
        }
    }

    /// The overall difficulty that a hit window is computed for: the one
    /// given, or that of the section.
    pub open spec fn chosen(&self, overall_difficulty: Option<i64>) -> int {
        match overall_difficulty {
            Some(od) => od as int,
            None => self.overall_difficulty as int,
        }
    }

    /// The window of a 300, in thousandths of a millisecond: 80 ms less 6 for
    /// each point of overall difficulty.
    pub fn od_300_window(&self, overall_difficulty: Option<i64>) -> (r: i128)
        ensures
            r == 80_000 - 6 * self.chosen(overall_difficulty),
    {
        let od = match overall_difficulty {
            Some(od) => od,
            None => self.overall_difficulty,
        };
        80_000 - 6 * (od as i128)
    }

    /// The window of a 100: 140 ms less 8 for each point.
    pub fn od_100_window(&self, overall_difficulty: Option<i64>) -> (r: i128)
        ensures
            r == 140_000 - 8 * self.chosen(overall_difficulty),
    {
        let od = match overall_difficulty {
            Some(od) => od,
            None => self.overall_difficulty,
        };
        140_000 - 8 * (od as i128)
    }

    /// The window of a 50: 200 ms less 10 for each point.
    pub fn od_50_window(&self, overall_difficulty: Option<i64>) -> (r: i128)
        ensures
            r == 200_000 - 10 * self.chosen(overall_difficulty),
    {
        let od = match overall_difficulty {
            Some(od) => od,
            None => self.overall_difficulty,
        };
        200_000 - 10 * (od as i128)
    }

    /// The section as it stands in a file: one line for each setting.
    pub open spec fn text(&self) -> Seq<char> {
        "HPDrainRate: "@ + fixed_text(self.hp_drain_rate as int) + "\nCircleSize: "@ + fixed_text(
            self.circle_size as int,
        ) + "\nOverallDifficulty: "@ + fixed_text(self.overall_difficulty as int)
            + "\nApproachRate: "@ + fixed_text(self.approach_rate as int)
            + "\nSliderMultiplier: "@ + fixed_text(self.slider_multiplier as int)
            + "\nSliderTickRate: "@ + fixed_text(self.slider_tick_rate as int)
    }

    pub fn to_str(&self) -> (s: String)
        ensures
            s@ == self.text(),
    {
        let mut s = String::new();
        s.append("HPDrainRate: ");
        append_fixed(&mut s, self.hp_drain_rate);
        s.append("\nCircleSize: ");
        append_fixed(&mut s, self.circle_size);
        s.append("\nOverallDifficulty: ");
        append_fixed(&mut s, self.overall_difficulty);
        s.append("\nApproachRate: ");
        append_fixed(&mut s, self.approach_rate);
        s.append("\nSliderMultiplier: ");
        append_fixed(&mut s, self.slider_multiplier);
        s.append("\nSliderTickRate: ");
        append_fixed(&mut s, self.slider_tick_rate);
        assert(s@ =~= self.text());
        s
    }
}

} // verus!
