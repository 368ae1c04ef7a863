//! The stat value parser: compact dice/flat notation such as `2D3+1`, `D6`,
//! `4` or the wildcard `*`, parsed into a [`ProfileValue`].

use vstd::prelude::*;

use crate::error::{res_view, RosterError, RosterErrorView};
use crate::text::{all_digits, digit_val, digits_prefix_len, digits_val, is_digit,
    lemma_digits_prefix_len_characterization, parse_digits_capped, scan_digits};
use vstd::string::StrSliceExecFns;
use vstd::string::StringExecFns;

verus! {

/// The die faces the game uses.
#[derive(Debug, Clone, Copy, PartialEq, Eq)]
pub enum DiceType {
    D3,
    D6,
}

/// How many dice of which type to roll.
#[derive(Debug, Clone, Copy, PartialEq, Eq)]
pub struct DiceRoll {
    pub number: u8,
    pub dice_type: DiceType,
}

/// A game statistic that may be a flat value, a dice value, or both at once
/// (`2D3+1`). Both fields absent means the source token was the wildcard
/// `*`: the value is data-dependent and not statically known.
#[derive(Debug, Clone, Copy, PartialEq, Eq)]
pub struct ProfileValue {
    pub dice_value: Option<DiceRoll>,
    pub flat_value: Option<u8>,
}

impl DeepView for DiceType {
    type V = DiceType;

    open spec fn deep_view(&self) -> DiceType {
        *self
    }
}

impl DeepView for DiceRoll {
    type V = DiceRoll;

    open spec fn deep_view(&self) -> DiceRoll {
        *self
    }
}

impl DeepView for ProfileValue {
    type V = ProfileValue;

    open spec fn deep_view(&self) -> ProfileValue {
        *self
    }
}

impl ProfileValue {
    /// The value with both fields absent.
    pub open spec fn spec_empty() -> ProfileValue {
        ProfileValue { dice_value: None, flat_value: None }
    }

    /// Whether neither a dice nor a flat component is present.
    pub open spec fn spec_is_empty(self) -> bool {
        self.dice_value is None && self.flat_value is None
    }
}

/// What `ProfileValue::from_str` returns, on any token.
///
/// The grammar is `[count] 'D' (3|6) ['+' flat]`, a bare integer, or the
/// wildcard `*`. A die face other than 3 or 6 is `UnsupportedDieFace`; any
/// other unrecognized shape (including a dice count of zero and numbers
/// above 255) is `MalformedStatValue`.
pub open spec fn spec_parse_stat_value(s: Seq<char>) -> Result<ProfileValue, RosterErrorView> {
    if s.len() == 1 && s[0] == '*' {
        Ok(ProfileValue { dice_value: None, flat_value: None })
    } else {
        let k = digits_prefix_len(s) as int;
        if k == s.len() {
            // No die-face marker: the token must be a bare integer.
            if s.len() == 0 || digits_val(s) > 255 {
                Err(RosterErrorView::MalformedStatValue { token: s })
            } else {
                Ok(ProfileValue { dice_value: None, flat_value: Some(digits_val(s) as u8) })
            }
        } else if s[k] == 'D' {
            if k > 0 && (digits_val(s.take(k)) == 0 || digits_val(s.take(k)) > 255) {
                Err(RosterErrorView::MalformedStatValue { token: s })
            } else if k + 1 >= s.len() || (s[k + 1] != '3' && s[k + 1] != '6') {
                Err(RosterErrorView::UnsupportedDieFace { token: s })
            } else {
                let count: u8 = if k == 0 { 1u8 } else { digits_val(s.take(k)) as u8 };
                let face = if s[k + 1] == '3' { DiceType::D3 } else { DiceType::D6 };
                let dice = DiceRoll { number: count, dice_type: face };
                let rest = s.skip(k + 2);
                if rest.len() == 0 {
                    Ok(ProfileValue { dice_value: Some(dice), flat_value: None })
                } else if rest[0] == '+' && rest.len() >= 2 && all_digits(rest.skip(1)) {
                    if digits_val(rest.skip(1)) > 255 {
                        Err(RosterErrorView::MalformedStatValue { token: s })
                    } else {
                        Ok(ProfileValue {
                            dice_value: Some(dice),
                            flat_value: Some(digits_val(rest.skip(1)) as u8),
                        })
                    }
                } else {
                    Err(RosterErrorView::MalformedStatValue { token: s })
                }
            }
        } else {
            Err(RosterErrorView::MalformedStatValue { token: s })
        }
    }
}

/// The decimal digits of `n`, most significant first.
pub open spec fn spec_digits_of(n: nat) -> Seq<char>
    decreases n,
{
    if n < 10 {
        seq![((48 + n) as u8) as char]
    } else {
        spec_digits_of(n / 10).push(((48 + n % 10) as u8) as char)
    }
}

/// The decimal digits of `n` form a digit run whose value is `n`.
pub proof fn lemma_digits_of_val(n: nat)
    ensures
        spec_digits_of(n).len() >= 1,
        all_digits(spec_digits_of(n)),
        digits_val(spec_digits_of(n)) == n,
    decreases n,
{
    if n < 10 {
        let c = ((48 + n) as u8) as char;
        assert(c as u32 == 48 + n);
        assert(is_digit(c));
        assert(spec_digits_of(n).drop_last() =~= Seq::<char>::empty());
        assert(spec_digits_of(n).last() == c);
        assert(digits_val(Seq::<char>::empty()) == 0);
        assert(digits_val(spec_digits_of(n)) == digits_val(Seq::<char>::empty()) * 10 + digit_val(c));
    } else {
        lemma_digits_of_val(n / 10);
        let c = ((48 + n % 10) as u8) as char;
        assert(c as u32 == 48 + n % 10);
        assert(is_digit(c));
        let d = spec_digits_of(n);
        assert(d.drop_last() =~= spec_digits_of(n / 10));
        assert(d.last() == c);
        assert(forall|i: int|
            0 <= i < d.len() - 1 ==> d[i] == (#[trigger] spec_digits_of(n / 10)[i]));
        assert(all_digits(d));
        assert(digits_val(d) == digits_val(spec_digits_of(n / 10)) * 10 + digit_val(c));
        assert((n / 10) * 10 + n % 10 == n) by (nonlinear_arith);
    }
}

/// A valid dice token recovers its parts exactly: for `<count>D<face>` with
/// an optional `+<flat>` tail, the parser returns exactly that dice count,
/// die face and flat bonus.
pub proof fn lemma_dice_token_roundtrip(count: u8, face: char, flat: Option<u8>)
    requires
        1 <= count,
        face == '3' || face == '6',
    ensures
        ({
            let token = spec_digits_of(count as nat) + seq!['D', face] + (match flat {
                Some(f) => seq!['+'] + spec_digits_of(f as nat),
                None => Seq::<char>::empty(),
            });
            spec_parse_stat_value(token) == Ok::<_, RosterErrorView>(
                ProfileValue {
                    dice_value: Some(
                        DiceRoll {
                            number: count,
                            dice_type: if face == '3' {
                                DiceType::D3
                            } else {
                                DiceType::D6
                            },
                        },
                    ),
                    flat_value: flat,
                },
            )
        }),
{
    lemma_digits_of_val(count as nat);
    let cd = spec_digits_of(count as nat);
    let k = cd.len() as int;
    let tail = (match flat {
        Some(f) => seq!['+'] + spec_digits_of(f as nat),
        None => Seq::<char>::empty(),
    });
    let token = cd + seq!['D', face] + tail;
    assert(forall|i: int| 0 <= i < k ==> token[i] == (#[trigger] cd[i]));
    assert(token[k] == 'D');
    assert(!is_digit('D'));
    lemma_digits_prefix_len_characterization(token, k);
    assert(token.take(k) =~= cd);
    assert(token[k + 1] == face);
    let rest = token.skip(k + 2);
    match flat {
        Some(f) => {
            lemma_digits_of_val(f as nat);
            assert(rest.len() == 1 + spec_digits_of(f as nat).len());
            assert(rest[0] == '+');
            assert(rest.skip(1) =~= spec_digits_of(f as nat));
        },
        None => {
            assert(rest.len() == 0);
        },
    }
}

/// A bare decimal token parses to exactly that flat value, with no dice.
pub proof fn lemma_flat_token_roundtrip(flat: u8)
    ensures
        spec_parse_stat_value(spec_digits_of(flat as nat)) == Ok::<_, RosterErrorView>(
            ProfileValue { dice_value: None, flat_value: Some(flat) },
        ),
{
    lemma_digits_of_val(flat as nat);
    let token = spec_digits_of(flat as nat);
    lemma_digits_prefix_len_characterization(token, token.len() as int);
    if token.len() == 1 && token[0] == '*' {
        assert(is_digit(token[0]));
        assert(!is_digit('*'));
    }
}

/// A dice token without a leading count defaults to one die.
pub proof fn lemma_dice_token_default_count(face: char, flat: Option<u8>)
    requires
        face == '3' || face == '6',
    ensures
        ({
            let token = seq!['D', face] + (match flat {
                Some(f) => seq!['+'] + spec_digits_of(f as nat),
                None => Seq::<char>::empty(),
            });
            spec_parse_stat_value(token) == Ok::<_, RosterErrorView>(
                ProfileValue {
                    dice_value: Some(
                        DiceRoll {
                            number: 1,
                            dice_type: if face == '3' {
                                DiceType::D3
                            } else {
                                DiceType::D6
                            },
                        },
                    ),
                    flat_value: flat,
                },
            )
        }),
{
    let tail = (match flat {
        Some(f) => seq!['+'] + spec_digits_of(f as nat),
        None => Seq::<char>::empty(),
    });
    let token = seq!['D', face] + tail;
    assert(token[0] == 'D');
    assert(!is_digit('D'));
    lemma_digits_prefix_len_characterization(token, 0);
    assert(token[1] == face);
    let rest = token.skip(2);
    match flat {
        Some(f) => {
            lemma_digits_of_val(f as nat);
            assert(rest[0] == '+');
            assert(rest.skip(1) =~= spec_digits_of(f as nat));
        },
        None => {
            assert(rest.len() == 0);
        },
    }
}

/// The wildcard token parses to the value with both parts absent, and it
/// is the only token that does: any other parse result carries a dice or
/// flat part.
pub proof fn lemma_wildcard_only_empty(s: Seq<char>)
    ensures
        s == seq!['*'] ==> spec_parse_stat_value(s) == Ok::<_, RosterErrorView>(
            ProfileValue::spec_empty(),
        ),
        spec_parse_stat_value(s) matches Ok(pv) && pv.spec_is_empty() ==> s == seq!['*'],
{
    if s.len() == 1 && s[0] == '*' {
        assert(s =~= seq!['*']);
    }
}

impl ProfileValue {
    /// Parse a compact dice/flat stat token.
    pub fn from_str(s: &str) -> (r: Result<ProfileValue, RosterError>)
        ensures
            res_view(r) == spec_parse_stat_value(s@),
    {
        let n = s.unicode_len();
        if n == 1 && s.get_char(0) == '*' {
            return Ok(ProfileValue { dice_value: None, flat_value: None });
        }
        let k = scan_digits(s, 0);
        proof {
            lemma_digits_prefix_len_characterization(s@, k as int);
        }
        if k == n {
            if n == 0 {
                return Err(RosterError::MalformedStatValue { token: String::from_str(s) });
            }
            proof {
                assert(s@.subrange(0, n as int) =~= s@);
            }
            match parse_digits_capped(s, 0, n, 255) {
                Some(v) => Ok(ProfileValue { dice_value: None, flat_value: Some(v as u8) }),
                None => Err(RosterError::MalformedStatValue { token: String::from_str(s) }),
            }
        } else if s.get_char(k) == 'D' {
            let mut count: u8 = 1;
            if k > 0 {
                match parse_digits_capped(s, 0, k, 255) {
                    Some(v) => {
                        if v == 0 {
                            return Err(RosterError::MalformedStatValue {
                                token: String::from_str(s),
                            });
                        }
                        count = v as u8;
                    },
                    None => {
                        return Err(RosterError::MalformedStatValue {
                            token: String::from_str(s),
                        });
                    },
                }
            }
            if k + 1 >= n {
                return Err(RosterError::UnsupportedDieFace { token: String::from_str(s) });
            }
            let f = s.get_char(k + 1);
            if f != '3' && f != '6' {
                return Err(RosterError::UnsupportedDieFace { token: String::from_str(s) });
            }
            let face = if f == '3' {
                DiceType::D3
            } else {
                DiceType::D6
            };
            let dice = DiceRoll { number: count, dice_type: face };
            let ghost rest = s@.skip(k + 2);
            if k + 2 == n {
                return Ok(ProfileValue { dice_value: Some(dice), flat_value: None });
            }
            if s.get_char(k + 2) != '+' {
                return Err(RosterError::MalformedStatValue { token: String::from_str(s) });
            }
            if k + 3 == n {
                proof {
                    assert(rest.len() == 1);
                }
                return Err(RosterError::MalformedStatValue { token: String::from_str(s) });
            }
            let e = scan_digits(s, k + 3);
            proof {
                assert(rest.skip(1) =~= s@.subrange(k + 3, n as int));
            }
            if e != n {
                proof {
                    assert(!is_digit(rest.skip(1)[e - (k + 3)]));
                }
                return Err(RosterError::MalformedStatValue { token: String::from_str(s) });
            }
            match parse_digits_capped(s, k + 3, n, 255) {
                Some(v) => Ok(ProfileValue { dice_value: Some(dice), flat_value: Some(v as u8) }),
                None => Err(RosterError::MalformedStatValue { token: String::from_str(s) }),
            }
        } else {
            Err(RosterError::MalformedStatValue { token: String::from_str(s) })
        }
    }
}

} // verus!

