# dfuji

Where and when the sun sets behind the summit of Mount Fuji ("Diamond Fuji").

The search runs on floating-point geodesy (`geographiclib-rs`) and astronomy
(`astro`); the decisions around them are made on integers and are verified
with Verus in `src/`:

- `clock`: splitting seconds into days, hours, minutes and seconds;
- `calendar`: calendar dates (checked by `chrono`), local clock times counted
  in seconds, the sunset time of a date, and conversion of Japan Standard Time
  to UNIX time;
- `window`: the observation window, two hours before sunset every 30 seconds;
- `selection`: choosing the first sample, or the one of least or greatest key;
- `alignment`: the best match (least angular separation within the thresholds)
  and the first hit of a window, with their UNIX time;
- `bins`: grouping samples into azimuth bins, ordered and without repetition;
- `ring`: joining the near and far boundary of each bin into the polygon ring;
- `geometry`: the GeoJSON geometry that a list of coordinates describes.

`app/` is the command-line program (`point`, `range`, `polygon`) with the
floating-point computations, and `tests/` exercises the library.
