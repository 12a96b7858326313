# financial_history_builder

Turns sparse financial data (annual and period totals, point-in-time balances)
into dense monthly series, and keeps the configuration that describes it.

The library (`src/`) is verified with Verus. Amounts are of a type `V` chosen
by the caller; the library decides which months, accounts and constraints take
part in each step, and states it in its contracts:

- `date`: month ends, fiscal years, reading periods written `YYYY-MM` or
  `YYYY-MM:YYYY-MM`.
- `engine`: the densification plans (which months each income statement
  constraint fills, shortest period first; which months a balance sheet
  snapshot anchors).
- `allocation`: filling the months of an income statement account step by
  step: what earlier steps fixed is taken off a constraint's value, the rest
  is shared by seasonal weight, perturbed and rescaled; filled months stay
  locked. Each month's origin (anchor, allocated share, interpolated) and
  source come from the plans.
- `seasonality`: checking custom weights, scaling weights to a total of one,
  reordering them for a fiscal year.
- `balancer`: the account that absorbs the accounting difference, the side of
  the equation on which each account counts, the plug figures, the equation
  check and the retained earnings roll-forward.
- `overrides`: renaming, merging, retyping, deleting, rescaling and setting
  values of accounts.
- `ingestion`: building a configuration from trial balance rows.
- `chart_of_accounts`: the chart of accounts and its CSV and markdown forms.
- `processing`: the checks a configuration must pass (periods, noise factors,
  fiscal year end month, structure of extracted configurations).
- `replies`: decisions on a text-generation service's replies and uploads
  (usable reply or error, upload headers, polling).
- `extraction`: document manifests, batching, markdown tables of dense data.

`app/` holds what needs floating point or outside services: serialisable copies
of the types, the profiles' weight tables, splines, random noise, the `f64`
operations handed to the library, logging and JSON schemas.
