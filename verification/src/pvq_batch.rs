//! Batched lookup of the PVQ codebook counts `U(N, K)`.
use vstd::prelude::*;

verus! {

/// Number of rows of the `U(N, K)` table: rows are kept for `min(N, K) < 15`.
pub const PVQ_U_ROWS: usize = 15;

/// The smaller of `m` and `k`: the table row that holds `U(m, k)`.
pub open spec fn u_row_of(m: int, k: int) -> int {
    if m < k {
        m
    } else {
        k
    }
}

/// The larger of `m` and `k`: the column of `U(m, k)` within its row.
pub open spec fn u_col_of(m: int, k: int) -> int {
    if m < k {
        k
    } else {
        m
    }
}

/// Index in the flat table of column `c` of row `r`, whose row starts at `u_row[r]`.
pub open spec fn u_slot(u_row: Seq<u32>, r: int, c: int) -> int {
    u_row[r] + c
}

/// Where `U(m, k)` stands in the flat table: the start of its row plus its column.
pub open spec fn u_table_index(u_row: Seq<u32>, m: int, k: int) -> int {
    u_slot(u_row, u_row_of(m, k), u_col_of(m, k))
}

/// `U(n, k)`, the PVQ codebook count: `U(0, 0) = 1`, `U(n, 0) = U(0, k) = 0`
/// for `n, k > 0`, and otherwise
/// `U(n, k) = U(n - 1, k) + U(n, k - 1) + U(n - 1, k - 1)`.
pub open spec fn pvq_u(n: nat, k: nat) -> nat
    decreases n + k,
{
    if n == 0 && k == 0 {
        1
    } else if n == 0 || k == 0 {
        0
    } else {
        pvq_u((n - 1) as nat, k) + pvq_u(n, (k - 1) as nat) + pvq_u((n - 1) as nat, (k - 1) as nat)
    }
}

/// Whether the flat table holds `U(r, c)` at column `c` of row `r` for every
/// stored row `r` and every column `c >= r` that falls inside the data.
pub open spec fn table_holds_u(u_row: Seq<u32>, u_data: Seq<u32>) -> bool {
    forall|r: int, c: int|
        0 <= r < PVQ_U_ROWS && r <= c && 0 <= #[trigger] u_slot(u_row, r, c) < u_data.len()
            ==> u_data[u_slot(u_row, r, c)] == pvq_u(r as nat, c as nat)
}

/// The row of `U(m, k)` is the smaller of `m` and `k` and its column the
/// larger: the row is at most both and is one of them, the column is at least
/// both and is one of them, and neither depends on the order of `m` and `k`.
pub proof fn law_u_table_position(m: int, k: int)
    ensures
        u_row_of(m, k) <= m,
        u_row_of(m, k) <= k,
        u_row_of(m, k) == m || u_row_of(m, k) == k,
        u_col_of(m, k) >= m,
        u_col_of(m, k) >= k,
        u_col_of(m, k) == m || u_col_of(m, k) == k,
        u_row_of(m, k) == u_row_of(k, m),
        u_col_of(m, k) == u_col_of(k, m),
        u_row_of(m, k) + u_col_of(m, k) == m + k,
{
}

/// `U(n, k) == U(k, n)`: the count is symmetric in its arguments.
pub proof fn law_pvq_u_symmetric(n: nat, k: nat)
    ensures
        pvq_u(n, k) == pvq_u(k, n),
    decreases n + k,
{
    if n > 0 && k > 0 {
        law_pvq_u_symmetric((n - 1) as nat, k);
        law_pvq_u_symmetric(n, (k - 1) as nat);
        law_pvq_u_symmetric((n - 1) as nat, (k - 1) as nat);
    }
}

/// The first rows of `U`: `U(1, k) = 1` and `U(2, k) = 2k - 1` for `k >= 1`.
pub proof fn law_pvq_u_first_rows(k: nat)
    requires
        k >= 1,
    ensures
        pvq_u(1, k) == 1,
        pvq_u(2, k) == 2 * k - 1,
    decreases k,
{
    if k > 1 {
        law_pvq_u_first_rows((k - 1) as nat);
        assert(pvq_u(0, k) == 0);
        assert(pvq_u(0, (k - 1) as nat) == 0);
        assert(pvq_u(1, k) == 1);
    } else {
        assert(pvq_u(0, 1) == 0);
        assert(pvq_u(1, 0) == 0);
        assert(pvq_u(0, 0) == 1);
        assert(pvq_u(1, 1) == 1);
        assert(pvq_u(2, 0) == 0);
        assert(pvq_u(2, 1) == 1);
    }
}

/// Reading a table that holds `U` at the position of `U(m, k)` gives `U(m, k)`.
pub proof fn law_table_lookup_is_u(u_row: Seq<u32>, u_data: Seq<u32>, m: int, k: int)
    requires
        table_holds_u(u_row, u_data),
        0 <= m,
        0 <= k,
        u_in_table(u_row, u_data.len() as int, m, k),
    ensures
        u_data[u_table_index(u_row, m, k)] == pvq_u(m as nat, k as nat),
{
    law_u_table_position(m, k);
    let r = u_row_of(m, k);
    let c = u_col_of(m, k);
    assert(0 <= u_slot(u_row, r, c) < u_data.len());
    law_pvq_u_symmetric(m as nat, k as nat);
}

/// Whether the table holds `U(m, k)`: its row is one of the stored rows and its
/// index falls inside the flat data.
pub open spec fn u_in_table(u_row: Seq<u32>, data_len: int, m: int, k: int) -> bool {
    u_row_of(m, k) < PVQ_U_ROWS && u_table_index(u_row, m, k) < data_len
}

/// Fills `u_values[m]` with `U(m, k)` for every `m` in `2..=n`.
///
/// The value is read from the flat table `u_data`, whose row `r` starts at
/// `u_row[r]`, where the table holds it; elsewhere `ncwrs(m, k)` supplies it.
/// The other entries of `u_values` are left as they were.
pub fn compute_u_batch(
    n: u32,
    k: u32,
    u_values: &mut [u32],
    u_row: &[u32; PVQ_U_ROWS],
    u_data: &[u32],
    ncwrs: impl Fn(u32, u32) -> u32,
)
    requires
        n >= 2 ==> n < old(u_values)@.len(),
        forall|m: u32| 2 <= m <= n ==> ncwrs.requires((m, k)),
    ensures
        final(u_values)@.len() == old(u_values)@.len(),
        forall|i: int|
            0 <= i < old(u_values)@.len() && !(2 <= i <= n) ==> final(u_values)@[i] == old(
                u_values,
            )@[i],
        forall|m: int|
            2 <= m <= n ==> if u_in_table(u_row@, u_data@.len() as int, m, k as int) {
                final(u_values)@[m] == u_data@[u_table_index(u_row@, m, k as int)]
            } else {
                ncwrs.ensures((m as u32, k), final(u_values)@[m])
            },
        table_holds_u(u_row@, u_data@) ==> forall|m: int|
            2 <= m <= n && u_in_table(u_row@, u_data@.len() as int, m, k as int)
                ==> final(u_values)@[m] == pvq_u(m as nat, k as nat),
{
    let mut m: u64 = 2;
    while m <= n as u64
        invariant
            2 <= m,
            m <= n as u64 + 1 || m == 2,
            n >= 2 ==> n < old(u_values)@.len(),
            forall|j: u32| 2 <= j <= n ==> ncwrs.requires((j, k)),
            u_values@.len() == old(u_values)@.len(),
            forall|i: int|
                0 <= i < old(u_values)@.len() && !(2 <= i < m) ==> u_values@[i] == old(
                    u_values,
                )@[i],
            forall|j: int|
                2 <= j < m ==> if u_in_table(u_row@, u_data@.len() as int, j, k as int) {
                    u_values@[j] == u_data@[u_table_index(u_row@, j, k as int)]
                } else {
                    ncwrs.ensures((j as u32, k), u_values@[j])
                },
        decreases n as u64 + 2 - m,
    {
        let mm: u32 = m as u32;
        let r: u32 = if mm < k {
            mm
        } else {
            k
        };
        let c: u32 = if mm < k {
            k
        } else {
            mm
        };
        let slot: usize = m as usize;
        if (r as usize) < PVQ_U_ROWS && (u_row[r as usize] as u64) + (c as u64) < u_data.len() as u64 {
            let idx: usize = ((u_row[r as usize] as u64) + (c as u64)) as usize;
            u_values[slot] = u_data[idx];
        } else {
            u_values[slot] = ncwrs(mm, k);
        }
        m = m + 1;
    }
    proof {
        if table_holds_u(u_row@, u_data@) {
            assert forall|j: int|
                2 <= j <= n && u_in_table(u_row@, u_data@.len() as int, j, k as int) implies
                u_values@[j] == pvq_u(j as nat, k as nat) by {
                law_table_lookup_is_u(u_row@, u_data@, j, k as int);
            }
        }
    }
}

} // verus!
